//! Recording a response: the plan that `save` carries out, and the
//! file-to-directory promotion that makes room for deeper fixture paths.
//!
//! The filesystem is driven from outside: for each folder on the way to a
//! fixture, the caller reports whether a plain file stands there, and the
//! promotion answers which file has to become `<folder>/index`. A recorded
//! fixture `<folder>.<ext>` beside such a folder is found in the route table
//! instead, and planned to become `<folder>/index.<ext>`.
use std::collections::HashMap;

use vstd::prelude::*;

use crate::config::{
    first_index, path_is, rename_views, route_views, with_route, ConfigView, Configuration, Route,
    RouteMethod, RouteView,
};
use crate::text::{same_text, starts_with};
use crate::storage::{
    ancestors, extension_for, fixture_path, prefixes_before_slashes, get_folders, get_folders_to_check, get_save_path,
    header_value, parent_of, texts,
};

verus! {

/// Where a promoted file's bytes go: `index` inside a folder of its name.
pub open spec fn promoted(path: Seq<char>) -> Seq<char> {
    path + seq!['/', 'i', 'n', 'd', 'e', 'x']
}

/// The stored fixture `r` stands in the way of the folder `f`: it is `f`
/// followed by an extension, a `.` and text without a `/`.
pub open spec fn fixture_in_way(f: Seq<char>, r: Seq<char>) -> bool {
    &&& r.len() > f.len() + 1
    &&& r.subrange(0, f.len() as int) == f
    &&& r[f.len() as int] == '.'
    &&& forall|j: int| f.len() < j < r.len() ==> r[j] != '/'
}

/// Where a fixture in the way of `f` goes: `index`, with the fixture's
/// extension, inside the folder `f`.
pub open spec fn moved_fixture(f: Seq<char>, r: Seq<char>) -> Seq<char> {
    promoted(f) + r.subrange(f.len() as int, r.len() as int)
}

/// Some move of `moves` starts from `r`.
pub open spec fn moves_from(moves: Seq<(Seq<char>, Seq<char>)>, r: Seq<char>) -> bool {
    exists|j: int| 0 <= j < moves.len() && moves[j].0 == r
}

/// `moves`, and the move of `r` into `f` where `r` is in the way of `f` and
/// not moved yet.
pub open spec fn move_step(moves: Seq<(Seq<char>, Seq<char>)>, f: Seq<char>, r: Seq<char>) -> Seq<(Seq<char>, Seq<char>)> {
    if fixture_in_way(f, r) && !moves_from(moves, r) {
        moves.push((r, moved_fixture(f, r)))
    } else {
        moves
    }
}

/// `moves`, and the moves into `f` of the fixtures of the first `n` routes.
pub open spec fn scan_routes(
    moves: Seq<(Seq<char>, Seq<char>)>,
    f: Seq<char>,
    routes: Seq<RouteView>,
    n: int,
) -> Seq<(Seq<char>, Seq<char>)>
    decreases n,
{
    if n <= 0 {
        moves
    } else {
        move_step(scan_routes(moves, f, routes, n - 1), f, routes[n - 1].resource)
    }
}

/// The moves of recorded fixtures that stand in the way of `folders`: for
/// each folder in order, each route's fixture in table order, each fixture
/// moved once.
pub open spec fn fixture_moves(routes: Seq<RouteView>, folders: Seq<Seq<char>>) -> Seq<(Seq<char>, Seq<char>)>
    decreases folders.len(),
{
    if folders.len() == 0 {
        Seq::empty()
    } else {
        scan_routes(fixture_moves(routes, folders.drop_last()), folders.last(), routes, routes.len() as int)
    }
}

proof fn lemma_scan_keeps(moves: Seq<(Seq<char>, Seq<char>)>, f: Seq<char>, routes: Seq<RouteView>, n: int, r: Seq<char>)
    requires
        moves_from(moves, r),
    ensures
        moves_from(scan_routes(moves, f, routes, n), r),
    decreases n,
{
    if n > 0 {
        lemma_scan_keeps(moves, f, routes, n - 1, r);
        let before = scan_routes(moves, f, routes, n - 1);
        let j = choose|j: int| 0 <= j < before.len() && before[j].0 == r;
        let after = move_step(before, f, routes[n - 1].resource);
        assert(0 <= j < after.len() && after[j].0 == r);
    }
}

proof fn lemma_scan_finds(moves: Seq<(Seq<char>, Seq<char>)>, f: Seq<char>, routes: Seq<RouteView>, n: int, k: int)
    requires
        0 <= k < n <= routes.len(),
        fixture_in_way(f, routes[k].resource),
    ensures
        moves_from(scan_routes(moves, f, routes, n), routes[k].resource),
    decreases n,
{
    let r = routes[k].resource;
    let before = scan_routes(moves, f, routes, n - 1);
    let after = scan_routes(moves, f, routes, n);
    if k == n - 1 {
        if !moves_from(before, r) {
            assert(after[after.len() - 1].0 == r);
        } else {
            let j = choose|j: int| 0 <= j < before.len() && before[j].0 == r;
            assert(after[j].0 == r);
        }
    } else {
        lemma_scan_finds(moves, f, routes, n - 1, k);
        let j = choose|j: int| 0 <= j < before.len() && before[j].0 == r;
        assert(after[j].0 == r);
    }
}

/// Every recorded fixture that stands in the way of one of `folders` (a file
/// `f.<ext>` beside the folder `f`) is among the planned moves.
pub proof fn lemma_fixtures_in_the_way_are_moved(routes: Seq<RouteView>, folders: Seq<Seq<char>>, i: int, k: int)
    requires
        0 <= i < folders.len(),
        0 <= k < routes.len(),
        fixture_in_way(folders[i], routes[k].resource),
    ensures
        moves_from(fixture_moves(routes, folders), routes[k].resource),
    decreases folders.len(),
{
    let rest = folders.drop_last();
    if i == folders.len() - 1 {
        lemma_scan_finds(fixture_moves(routes, rest), folders.last(), routes, routes.len() as int, k);
    } else {
        assert(rest[i] == folders[i]);
        lemma_fixtures_in_the_way_are_moved(routes, rest, i, k);
        lemma_scan_keeps(fixture_moves(routes, rest), folders.last(), routes, routes.len() as int, routes[k].resource);
    }
}


/// Every move of `moves` takes a fixture into `index` of a folder of
/// `folders` that it stands in the way of.
pub open spec fn moves_into(moves: Seq<(Seq<char>, Seq<char>)>, folders: Seq<Seq<char>>) -> bool {
    forall|j: int|
        0 <= j < moves.len() ==> exists|i: int|
            0 <= i < folders.len() && fixture_in_way(folders[i], #[trigger] moves[j].0) && moves[j].1
                == moved_fixture(folders[i], moves[j].0)
}

proof fn lemma_scan_into(
    moves: Seq<(Seq<char>, Seq<char>)>,
    folders: Seq<Seq<char>>,
    i: int,
    routes: Seq<RouteView>,
    n: int,
)
    requires
        moves_into(moves, folders),
        0 <= i < folders.len(),
    ensures
        moves_into(scan_routes(moves, folders[i], routes, n), folders),
    decreases n,
{
    if n > 0 {
        lemma_scan_into(moves, folders, i, routes, n - 1);
        let before = scan_routes(moves, folders[i], routes, n - 1);
        let after = scan_routes(moves, folders[i], routes, n);
        assert forall|j: int| 0 <= j < after.len() implies exists|i2: int|
            0 <= i2 < folders.len() && fixture_in_way(folders[i2], #[trigger] after[j].0) && after[j].1
                == moved_fixture(folders[i2], after[j].0) by {
            if j < before.len() {
                assert(after[j] == before[j]);
                assert(before[j].0 == before[j].0);
            } else {
                assert(fixture_in_way(folders[i], after[j].0));
            }
        }
    }
}

proof fn lemma_moves_into(routes: Seq<RouteView>, folders: Seq<Seq<char>>)
    ensures
        moves_into(fixture_moves(routes, folders), folders),
    decreases folders.len(),
{
    if folders.len() > 0 {
        let rest = folders.drop_last();
        lemma_moves_into(routes, rest);
        let m = fixture_moves(routes, rest);
        assert forall|j: int| 0 <= j < m.len() implies exists|i: int|
            0 <= i < folders.len() && fixture_in_way(folders[i], #[trigger] m[j].0) && m[j].1
                == moved_fixture(folders[i], m[j].0) by {
            assert(m[j].0 == m[j].0);
            let i = choose|i: int|
                0 <= i < rest.len() && fixture_in_way(rest[i], m[j].0) && m[j].1 == moved_fixture(rest[i], m[j].0);
            assert(folders[i] == rest[i]);
        }
        lemma_scan_into(m, folders, folders.len() - 1, routes, routes.len() as int);
    }
}

/// Each prefix listed before a `/` is followed by a `/` in `s`.
proof fn lemma_slash_prefixes(s: Seq<char>, n: int)
    requires
        0 <= n <= s.len(),
    ensures
        forall|j: int|
            0 <= j < prefixes_before_slashes(s, n).len() ==> {
                let t = #[trigger] prefixes_before_slashes(s, n)[j];
                &&& t.len() < n
                &&& t == s.subrange(0, t.len() as int)
                &&& s[t.len() as int] == '/'
            },
    decreases n,
{
    if n > 0 {
        lemma_slash_prefixes(s, n - 1);
        let prev = prefixes_before_slashes(s, n - 1);
        let cur = prefixes_before_slashes(s, n);
        assert forall|j: int| 0 <= j < cur.len() implies {
            let t = #[trigger] cur[j];
            &&& t.len() < n
            &&& t == s.subrange(0, t.len() as int)
            &&& s[t.len() as int] == '/'
        } by {
            if j < prev.len() {
                assert(cur[j] == prev[j]);
            } else {
                assert(cur[j] == s.subrange(0, n - 1));
                assert(cur[j].len() == n - 1);
            }
        }
    }
}

/// Among the folders on the way to `s`, a fixture stands in the way of one at most.
proof fn lemma_single_folder_in_way(s: Seq<char>, a: int, b: int, r: Seq<char>)
    requires
        0 <= a < ancestors(s).len(),
        0 <= b < ancestors(s).len(),
        fixture_in_way(ancestors(s)[a], r),
        fixture_in_way(ancestors(s)[b], r),
    ensures
        ancestors(s)[a] == ancestors(s)[b],
{
    lemma_slash_prefixes(s, s.len() as int);
    let f1 = ancestors(s)[a];
    let f2 = ancestors(s)[b];
    let pre = prefixes_before_slashes(s, s.len() as int);
    if f1.len() == f2.len() {
        assert(f1 =~= r.subrange(0, f1.len() as int));
        assert(f2 =~= r.subrange(0, f2.len() as int));
    } else if f1.len() < f2.len() {
        assert(a < pre.len());
        assert(pre[a] == f1);
        assert(s[f1.len() as int] == '/');
        assert(r[f1.len() as int] == f2[f1.len() as int]);
        if b < pre.len() {
            assert(pre[b] == f2);
            assert(f2[f1.len() as int] == s[f1.len() as int]);
        } else {
            assert(f2 == s);
        }
    } else {
        assert(b < pre.len());
        assert(pre[b] == f2);
        assert(s[f2.len() as int] == '/');
        assert(r[f2.len() as int] == f1[f2.len() as int]);
        if a < pre.len() {
            assert(pre[a] == f1);
            assert(f1[f2.len() as int] == s[f2.len() as int]);
        } else {
            assert(f1 == s);
        }
    }
}

/// Where a recorded fixture `f.<ext>` stands beside a folder `f` on the way
/// to `s`, the planned moves take it to `f/index.<ext>`.
pub proof fn lemma_fixture_in_the_way_becomes_index(routes: Seq<RouteView>, s: Seq<char>, i: int, k: int)
    requires
        0 <= i < ancestors(s).len(),
        0 <= k < routes.len(),
        fixture_in_way(ancestors(s)[i], routes[k].resource),
    ensures
        exists|j: int|
            0 <= j < fixture_moves(routes, ancestors(s)).len() && fixture_moves(routes, ancestors(s))[j] == (
                routes[k].resource,
                moved_fixture(ancestors(s)[i], routes[k].resource),
            ),
{
    let folders = ancestors(s);
    let moves = fixture_moves(routes, folders);
    let r = routes[k].resource;
    lemma_fixtures_in_the_way_are_moved(routes, folders, i, k);
    lemma_moves_into(routes, folders);
    let j = choose|j: int| 0 <= j < moves.len() && moves[j].0 == r;
    assert(moves[j].0 == r);
    let i2 = choose|i2: int|
        0 <= i2 < folders.len() && fixture_in_way(folders[i2], moves[j].0) && moves[j].1 == moved_fixture(folders[i2], moves[j].0);
    lemma_single_folder_in_way(s, i, i2, r);
    assert(moves[j] == (r, moved_fixture(folders[i], r)));
}

/// Whether the fixture `r` stands in the way of the folder `f`.
fn in_way(f: &str, r: &str) -> (b: bool)
    ensures
        b == fixture_in_way(f@, r@),
{
    let n = f.unicode_len();
    let m = r.unicode_len();
    if m < 2 || m - 2 < n {
        return false;
    }
    if !starts_with(r, f) {
        return false;
    }
    if r.get_char(n) != '.' {
        return false;
    }
    let mut j: usize = n + 1;
    while j < m
        invariant
            m == r@.len(),
            n == f@.len(),
            n + 1 <= j <= m,
            forall|k: int| n < k < j ==> r@[k] != '/',
        decreases m - j,
    {
        if r.get_char(j) == '/' {
            return false;
        }
        j = j + 1;
    }
    true
}

/// Where the fixture `r`, in the way of `f`, goes.
fn moved(f: &str, r: &str) -> (s: String)
    requires
        fixture_in_way(f@, r@),
    ensures
        s@ == moved_fixture(f@, r@),
{
    proof {
        reveal_strlit("/index");
        assert("/index"@ =~= seq!['/', 'i', 'n', 'd', 'e', 'x']);
    }
    let n = f.unicode_len();
    let m = r.unicode_len();
    let mut s = String::from_str(f);
    s.append("/index");
    s.append(r.substring_char(n, m));
    s
}

/// Whether some move of `moves` starts from `r`.
fn has_move_from(moves: &Vec<(String, String)>, r: &str) -> (b: bool)
    ensures
        b == moves_from(rename_views(moves@), r@),
{
    let ghost mv = rename_views(moves@);
    let mut j: usize = 0;
    while j < moves.len()
        invariant
            j <= moves@.len(),
            mv == rename_views(moves@),
            forall|k: int| 0 <= k < j ==> mv[k].0 != r@,
        decreases moves@.len() - j,
    {
        if same_text(moves[j].0.as_str(), r) {
            assert(mv[j as int].0 == r@);
            return true;
        }
        j = j + 1;
    }
    false
}

/// The moves of recorded fixtures of `routes` that stand in the way of
/// `folders`.
pub fn plan_fixture_moves(routes: &Vec<Route>, folders: &Vec<String>) -> (moves: Vec<(String, String)>)
    ensures
        rename_views(moves@) == fixture_moves(route_views(routes@), texts(folders@)),
{
    let ghost rv = route_views(routes@);
    let ghost fv = texts(folders@);
    let mut moves: Vec<(String, String)> = Vec::new();
    let mut i: usize = 0;
    proof {
        assert(rename_views(moves@) =~= Seq::<(Seq<char>, Seq<char>)>::empty());
        assert(fv.take(0) =~= Seq::<Seq<char>>::empty());
    }
    while i < folders.len()
        invariant
            i <= folders@.len(),
            rv == route_views(routes@),
            fv == texts(folders@),
            fv.len() == folders@.len(),
            rv.len() == routes@.len(),
            rename_views(moves@) == fixture_moves(rv, fv.take(i as int)),
        decreases folders@.len() - i,
    {
        let f = folders[i].as_str();
        let ghost start = rename_views(moves@);
        let mut k: usize = 0;
        while k < routes.len()
            invariant
                i < folders@.len(),
                k <= routes@.len(),
                rv == route_views(routes@),
                fv == texts(folders@),
                rv.len() == routes@.len(),
                f@ == fv[i as int],
                start == fixture_moves(rv, fv.take(i as int)),
                rename_views(moves@) == scan_routes(start, f@, rv, k as int),
            decreases routes@.len() - k,
        {
            let r = routes[k].resource.as_str();
            assert(rv[k as int].resource == r@);
            let ghost before = rename_views(moves@);
            if in_way(f, r) && !has_move_from(&moves, r) {
                let to = moved(f, r);
                moves.push((String::from_str(r), to));
                assert(rename_views(moves@) =~= before.push((r@, moved_fixture(f@, r@))));
            }
            k = k + 1;
        }
        proof {
            let t = fv.take(i + 1);
            assert(t.drop_last() =~= fv.take(i as int));
            assert(t.last() == fv[i as int]);
        }
        i = i + 1;
    }
    assert(fv.take(folders@.len() as int) =~= fv);
    moves
}

/// The renames that promotion makes, given for each candidate whether a
/// plain file stood there when it was checked.
pub open spec fn renames_for(candidates: Seq<Seq<char>>, is_file: Seq<bool>) -> Seq<(Seq<char>, Seq<char>)>
    decreases candidates.len(),
{
    if candidates.len() == 0 || is_file.len() < candidates.len() {
        Seq::empty()
    } else {
        let n = candidates.len() - 1;
        let before = renames_for(candidates.take(n), is_file.take(n));
        if is_file[n] {
            before.push((candidates[n], promoted(candidates[n])))
        } else {
            before
        }
    }
}

/// A walk over the folders above one fixture, shortest first.
pub struct Promotion {
    candidates: Vec<String>,
    next: usize,
    renames: Vec<(String, String)>,
    observed: Ghost<Seq<bool>>,
}

/// A promotion as plain values.
pub struct PromotionView {
    pub candidates: Seq<Seq<char>>,
    pub next: nat,
    pub observed: Seq<bool>,
    pub renames: Seq<(Seq<char>, Seq<char>)>,
}

impl View for Promotion {
    type V = PromotionView;

    closed spec fn view(&self) -> PromotionView {
        PromotionView {
            candidates: texts(self.candidates@),
            next: self.next as nat,
            observed: self.observed@,
            renames: rename_views(self.renames@),
        }
    }
}

impl Promotion {
    /// The checks done are `observed`, one per candidate, and the renames are
    /// what they call for.
    pub closed spec fn wf(&self) -> bool {
        &&& self.next <= self.candidates@.len()
        &&& self.observed@.len() == self.next
        &&& self@.renames == renames_for(self@.candidates.take(self.next as int), self.observed@)
    }

    /// A walk over the folders on the way to the fixture `target`.
    pub fn new(target: &str) -> (r: Promotion)
        ensures
            r.wf(),
            r@.candidates == ancestors(parent_of(target@)),
            r@.next == 0,
            r@.observed == Seq::<bool>::empty(),
            r@.renames == Seq::<(Seq<char>, Seq<char>)>::empty(),
    {
        let folders = get_folders(target);
        let candidates = get_folders_to_check(folders.as_str());
        let r = Promotion { candidates, next: 0, renames: Vec::new(), observed: Ghost(Seq::empty()) };
        proof {
            assert(r@.renames =~= Seq::<(Seq<char>, Seq<char>)>::empty());
            assert(r@.candidates.take(0) =~= Seq::<Seq<char>>::empty());
        }
        r
    }

    /// The folder to check next, if any is left.
    pub fn pending(&self) -> (r: Option<String>)
        requires
            self.wf(),
        ensures
            match r {
                Some(c) => self@.next < self@.candidates.len() && c@ == self@.candidates[self@.next as int],
                None => self@.next == self@.candidates.len(),
            },
            self@.next <= self@.candidates.len(),
    {
        if self.next < self.candidates.len() {
            Some(self.candidates[self.next].clone())
        } else {
            None
        }
    }

    /// Takes note of whether a plain file stands at the pending folder, and
    /// returns the rename that this calls for: the file moves to `index`
    /// inside a folder of its own name.
    pub fn observe(&mut self, is_file: bool) -> (r: Option<(String, String)>)
        requires
            old(self).wf(),
            old(self)@.next < old(self)@.candidates.len(),
        ensures
            final(self).wf(),
            final(self)@.candidates == old(self)@.candidates,
            final(self)@.next == old(self)@.next + 1,
            final(self)@.observed == old(self)@.observed.push(is_file),
            match r {
                Some(p) => is_file && p.0@ == old(self)@.candidates[old(self)@.next as int] && p.1@
                    == promoted(p.0@) && final(self)@.renames == old(self)@.renames.push((p.0@, p.1@)),
                None => !is_file && final(self)@.renames == old(self)@.renames,
            },
    {
        let ghost c0 = self@.candidates;
        let ghost n = self.next as int;
        let ghost obs = self.observed@.push(is_file);
        let next = self.next;
        let count = self.candidates.len();
        proof {
            assert(next < count);
            assert(c0.take(n + 1).take(n) =~= c0.take(n));
            assert(obs.take(n) =~= self.observed@);
            assert(c0.take(n + 1)[n] == c0[n]);
        }
        let result = if is_file {
            let from = self.candidates[self.next].clone();
            let mut to = from.clone();
            proof {
                reveal_strlit("/index");
                assert("/index"@ =~= seq!['/', 'i', 'n', 'd', 'e', 'x']);
            }
            to.append("/index");
            let pair = (from.clone(), to.clone());
            self.renames.push(pair);
            Some((from, to))
        } else {
            None
        };
        self.next = next + 1;
        self.observed = Ghost(obs);
        proof {
            assert(self@.renames =~= renames_for(c0.take(n + 1), obs));
        }
        result
    }

    /// Whether every folder has been checked.
    pub fn is_done(&self) -> (r: bool)
        requires
            self.wf(),
        ensures
            r == (self@.next == self@.candidates.len()),
            self@.next <= self@.candidates.len(),
    {
        self.next == self.candidates.len()
    }

    /// The renames made so far, in the order of the checks.
    pub fn renames(&self) -> (r: &Vec<(String, String)>)
        requires
            self.wf(),
        ensures
            rename_views(r@) == self@.renames,
            self@.next == self@.candidates.len() ==> self@.renames == renames_for(
                self@.candidates,
                self@.observed,
            ),
    {
        proof {
            assert(self@.candidates.take(self@.candidates.len() as int) =~= self@.candidates);
        }
        &self.renames
    }
}

/// What is left to do on disk after a route was recorded: check the folders
/// on the way (promoting files that stand there), move each recorded fixture
/// of `moves` that stands in the way of one of them to `index` inside it,
/// then write the body to `path`, creating `folders`.
pub struct SavePlan {
    pub path: String,
    pub folders: String,
    pub promotion: Promotion,
    pub moves: Vec<(String, String)>,
}

/// Records `uri` for `method` in `config`, with the fixture path derived from
/// `uri` and `headers`. Where a route for `(uri, method)` is there already,
/// nothing changes and `None` comes back: the fixture is not written again.
pub fn plan_save(
    config: &mut Configuration,
    method: &RouteMethod,
    uri: &str,
    headers: &HashMap<String, String>,
) -> (r: Option<SavePlan>)
    ensures
        ({
            let p = fixture_path(uri@, extension_for(header_value(headers@, "content-type"@)));
            &&& final(config)@ == with_route(old(config)@, *method, uri@, p)
            &&& (r is Some <==> first_index(old(config)@.routes, path_is(uri@, *method)) is None)
            &&& r matches Some(plan) ==> {
                &&& plan.path@ == p
                &&& plan.folders@ == parent_of(p)
                &&& plan.promotion.wf()
                &&& plan.promotion@.candidates == ancestors(parent_of(p))
                &&& plan.promotion@.next == 0
                &&& plan.promotion@.renames.len() == 0
                &&& rename_views(plan.moves@) == fixture_moves(final(config)@.routes, ancestors(parent_of(p)))
            }
        }),
{
    let path = get_save_path(uri, headers);
    if config.record_route(method, uri, path.clone()) {
        let folders = get_folders(path.as_str());
        let promotion = Promotion::new(path.as_str());
        let candidates = get_folders_to_check(folders.as_str());
        let moves = plan_fixture_moves(&config.routes, &candidates);
        Some(SavePlan { path, folders, promotion, moves })
    } else {
        None
    }
}

/// Recording the same `(method, uri)` twice leaves the configuration as the
/// first recording left it, the second recording writes nothing, and the
/// table then holds exactly one route for `(method, uri)` where it held none.
pub proof fn lemma_recording_is_idempotent(
    c: ConfigView,
    m: RouteMethod,
    uri: Seq<char>,
    resource: Seq<char>,
)
    ensures
        with_route(with_route(c, m, uri, resource), m, uri, resource) == with_route(c, m, uri, resource),
        first_index(with_route(c, m, uri, resource).routes, path_is(uri, m)) is Some,
        first_index(c.routes, path_is(uri, m)) is None ==> {
            let rs = with_route(c, m, uri, resource).routes;
            forall|k: int| 0 <= k < rs.len() ==> ((path_is(uri, m))(rs[k]) <==> k == rs.len() - 1)
        },
{
    let once = with_route(c, m, uri, resource);
    if first_index(c.routes, path_is(uri, m)) is None {
        let rs = once.routes;
        let k = rs.len() - 1;
        assert((path_is(uri, m))(rs[k]));
        assert(forall|j: int| 0 <= j < k ==> rs[j] == c.routes[j]);
        assert forall|j: int| 0 <= j < k implies !(path_is(uri, m))(rs[j]) by {
            if (path_is(uri, m))(rs[j]) {
                assert(0 <= j < c.routes.len() && (path_is(uri, m))(c.routes[j]));
            }
        }
        crate::config::lemma_first_index(rs, path_is(uri, m), k);
    }
}

} // verus!
