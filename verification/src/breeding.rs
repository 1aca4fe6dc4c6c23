//! Breeding plans: from the pals a player has, find a sequence of breedings that
//! produces a wanted pal, or establish that none exists.
use vstd::prelude::*;
use crate::db::{
    child_of, closest_from, closest_id, exception_for, lemma_closest_from_best, lemma_first_from_found,
    owned, pal_by_name, translated_pal, PalDb, PalRow, breed_power_of_name, first_from, ExceptionRow,
};
use crate::text::text_eq;

verus! {

/// The pal is known by id or name (its breeding power is on record).
pub open spec fn known(db: PalDb, name: Seq<char>) -> bool {
    pal_by_name(db.pals@, name) is Some
}

/// The name of the child two parents breed, in the chosen language.
pub open spec fn child_name(db: PalDb, a: Seq<char>, b: Seq<char>, es: bool) -> Seq<char> {
    child_of(db, a, b, es).0
}

/// `a + b + 1` stays in the `i32` range.
pub open spec fn sum_fits(a: int, b: int) -> bool {
    i32::MIN <= a + b && a + b + 1 <= i32::MAX
}

/// Any two breeding powers on record (or the 1500 used for unknown names) can be
/// averaged without leaving the `i32` range.
pub open spec fn powers_fit(pals: Seq<PalRow>) -> bool {
    &&& forall|i: int| 0 <= i < pals.len() ==> sum_fits(#[trigger] pals[i].breed_power as int, 1500)
    &&& forall|i: int, j: int|
        0 <= i < pals.len() && 0 <= j < pals.len() ==> sum_fits(
            #[trigger] pals[i].breed_power as int,
            #[trigger] pals[j].breed_power as int,
        )
}

/// Whether any two breeding powers on record (or the 1500 of unknown names) can be
/// averaged (see `powers_fit`), decided from the smallest and the largest power.
pub fn breed_powers_fit(db: &PalDb) -> (r: bool)
    ensures
        r == powers_fit(db.pals@),
{
    let pals = &db.pals;
    let mut lo: i64 = 1500;
    let mut hi: i64 = 1500;
    let mut k: usize = 0;
    while k < pals.len()
        invariant
            k <= pals@.len(),
            pals@ == db.pals@,
            lo <= 1500 <= hi,
            i32::MIN <= lo,
            hi <= i32::MAX,
            lo == 1500 || exists|i: int| 0 <= i < k && (#[trigger] pals@[i]).breed_power == lo,
            hi == 1500 || exists|i: int| 0 <= i < k && (#[trigger] pals@[i]).breed_power == hi,
            forall|i: int| 0 <= i < k ==> lo <= (#[trigger] pals@[i]).breed_power <= hi,
        decreases pals@.len() - k,
    {
        let p = pals[k].breed_power as i64;
        if p < lo {
            lo = p;
        }
        if p > hi {
            hi = p;
        }
        k = k + 1;
    }
    let r = lo + lo >= -2147483648 && hi + hi + 1 <= 2147483647;
    proof {
        if r {
            assert forall|i: int, j: int| 0 <= i < pals@.len() && 0 <= j < pals@.len() implies sum_fits(
                #[trigger] pals@[i].breed_power as int,
                #[trigger] pals@[j].breed_power as int,
            ) by {}
        } else if lo + lo < i32::MIN {
            if lo != 1500 {
                let i = choose|i: int| 0 <= i < k && (#[trigger] pals@[i]).breed_power == lo;
                assert(!sum_fits(pals@[i].breed_power as int, pals@[i].breed_power as int));
            }
        } else {
            if hi != 1500 {
                let i = choose|i: int| 0 <= i < k && (#[trigger] pals@[i]).breed_power == hi;
                assert(!sum_fits(pals@[i].breed_power as int, pals@[i].breed_power as int));
            }
        }
    }
    r
}

/// `x` is one of the pals at hand or the child of an earlier step.
pub open spec fn have(avail: Seq<Seq<char>>, steps: Seq<(Seq<char>, Seq<char>, Seq<char>)>, x: Seq<char>) -> bool {
    avail.contains(x) || exists|m: int| 0 <= m < steps.len() && (#[trigger] steps[m]).2 == x
}

/// Every step breeds two known pals that are at hand or bred earlier, and names the
/// child they breed.
pub open spec fn sound_steps(db: PalDb, es: bool, avail: Seq<Seq<char>>, steps: Seq<(Seq<char>, Seq<char>, Seq<char>)>) -> bool {
    forall|k: int|
        0 <= k < steps.len() ==> {
            let (a, b, c) = #[trigger] steps[k];
            &&& known(db, a)
            &&& known(db, b)
            &&& c == child_name(db, a, b, es)
            &&& have(avail, steps.take(k), a)
            &&& have(avail, steps.take(k), b)
        }
}

/// No step breeds a pal already at hand, and no two steps breed the same pal.
pub open spec fn fresh_children(avail: Seq<Seq<char>>, steps: Seq<(Seq<char>, Seq<char>, Seq<char>)>) -> bool {
    &&& forall|k: int| 0 <= k < steps.len() ==> !avail.contains(#[trigger] steps[k].2)
    &&& forall|k: int, m: int| 0 <= m < k < steps.len() ==> (#[trigger] steps[m]).2 != (#[trigger] steps[k]).2
}

/// The steps from position `lo` on are parent records at positions up to `k`.
spec fn drawn_from(
    p: Seq<(Seq<char>, Seq<char>, Seq<char>)>,
    s: Seq<(Seq<char>, Seq<char>, Seq<char>)>,
    lo: int,
    k: int,
) -> bool {
    forall|q: int| lo <= q < s.len() ==> exists|m: int| 0 <= m <= k && #[trigger] s[q] == p[m]
}

/// A breeding plan for `target`: sound steps ending with the target, none breeding a pal
/// at hand or one bred before, or no steps when the target is at hand.
pub open spec fn valid_plan(db: PalDb, es: bool, avail: Seq<Seq<char>>, target: Seq<char>, steps: Seq<(Seq<char>, Seq<char>, Seq<char>)>) -> bool {
    &&& sound_steps(db, es, avail, steps)
    &&& fresh_children(avail, steps)
    &&& (steps.len() == 0 ==> avail.contains(target))
    &&& (steps.len() > 0 ==> steps.last().2 == target)
}

/// A set of pals closed under breeding: any two known pals of it breed a pal of it.
pub open spec fn closed(db: PalDb, es: bool, r: Set<Seq<char>>) -> bool {
    forall|a: Seq<char>, b: Seq<char>|
        r.contains(a) && r.contains(b) && known(db, a) && known(db, b) ==> r.contains(
            #[trigger] child_name(db, a, b, es),
        )
}

/// Every child name that breeding can produce: the translations of the pal ids, of the
/// exception children and of the fallback pal.
pub open spec fn universe(db: PalDb, es: bool) -> Seq<Seq<char>> {
    db.pals@.map_values(|p: PalRow| translated_pal(db.pals@, p.internal_id@, es)) + db.exceptions@.map_values(
        |e: ExceptionRow| translated_pal(db.pals@, e.child@, es),
    ) + seq![translated_pal(db.pals@, "SheepBall"@, es)]
}

proof fn lemma_child_in_universe(db: PalDb, es: bool, a: Seq<char>, b: Seq<char>)
    ensures
        universe(db, es).contains(child_name(db, a, b, es)),
{
    let u = universe(db, es);
    let np = db.pals@.len();
    let ne = db.exceptions@.len();
    match exception_for(db.exceptions@, a, b) {
        Some(i) => {
            crate::db::lemma_exception_found(db.exceptions@, a, b);
            assert(u[(np + i) as int] == translated_pal(db.pals@, db.exceptions@[i].child@, es));
        },
        None => {
            let avg = crate::db::avg_power(breed_power_of_name(db.pals@, a), breed_power_of_name(db.pals@, b));
            lemma_closest_from_best(db.pals@, avg, 0);
            match closest_from(db.pals@, avg, 0) {
                Some(k) => {
                    assert(u[k] == translated_pal(db.pals@, db.pals@[k].internal_id@, es));
                },
                None => {
                    assert(u[(np + ne) as int] == translated_pal(db.pals@, "SheepBall"@, es));
                },
            }
        },
    }
}

/// Breeding does not depend on the order of the parents.
pub proof fn lemma_child_symmetric(db: PalDb, es: bool, a: Seq<char>, b: Seq<char>)
    ensures
        child_name(db, a, b, es) == child_name(db, b, a, es),
{
    crate::db::lemma_exception_symmetric(db.exceptions@, a, b);
    assert(breed_power_of_name(db.pals@, a) + breed_power_of_name(db.pals@, b) == breed_power_of_name(db.pals@, b) + breed_power_of_name(db.pals@, a));
}


/// The children of a list of steps, in order.
pub open spec fn children(steps: Seq<(Seq<char>, Seq<char>, Seq<char>)>) -> Seq<Seq<char>> {
    steps.map_values(|t: (Seq<char>, Seq<char>, Seq<char>)| t.2)
}

/// The parent records kept while searching: sound steps whose children are new (not at
/// hand and not repeated).
pub open spec fn parents_wf(db: PalDb, es: bool, avail: Seq<Seq<char>>, p: Seq<(Seq<char>, Seq<char>, Seq<char>)>) -> bool {
    &&& sound_steps(db, es, avail, p)
    &&& forall|k: int| 0 <= k < p.len() ==> !avail.contains(#[trigger] p[k].2)
    &&& forall|k: int, m: int| 0 <= m < k < p.len() ==> (#[trigger] p[m]).2 != (#[trigger] p[k]).2
}

/// Views of text triples.
pub open spec fn triples(v: Seq<(String, String, String)>) -> Seq<(Seq<char>, Seq<char>, Seq<char>)> {
    v.map_values(|t: (String, String, String)| (t.0@, t.1@, t.2@))
}

/// Views of a list of strings.
pub open spec fn names(v: Seq<String>) -> Seq<Seq<char>> {
    v.map_values(|x: String| x@)
}

proof fn lemma_have_grows(avail: Seq<Seq<char>>, s: Seq<(Seq<char>, Seq<char>, Seq<char>)>, t: Seq<(Seq<char>, Seq<char>, Seq<char>)>, x: Seq<char>)
    requires
        have(avail, s, x),
        s.len() <= t.len(),
        t.take(s.len() as int) == s,
    ensures
        have(avail, t, x),
{
    if !avail.contains(x) {
        let m = choose|m: int| 0 <= m < s.len() && (#[trigger] s[m]).2 == x;
        assert(t.take(s.len() as int)[m] == t[m]);
        assert(t[m].2 == x);
    }
}

proof fn lemma_sound_push(db: PalDb, es: bool, avail: Seq<Seq<char>>, s: Seq<(Seq<char>, Seq<char>, Seq<char>)>, e: (Seq<char>, Seq<char>, Seq<char>))
    requires
        sound_steps(db, es, avail, s),
        known(db, e.0),
        known(db, e.1),
        e.2 == child_name(db, e.0, e.1, es),
        have(avail, s, e.0),
        have(avail, s, e.1),
    ensures
        sound_steps(db, es, avail, s.push(e)),
{
    let t = s.push(e);
    assert forall|k: int| 0 <= k < t.len() implies {
        let (a, b, c) = #[trigger] t[k];
        &&& known(db, a)
        &&& known(db, b)
        &&& c == child_name(db, a, b, es)
        &&& have(avail, t.take(k), a)
        &&& have(avail, t.take(k), b)
    } by {
        if k < s.len() {
            assert(t.take(k) =~= s.take(k));
            assert(t[k] == s[k]);
        } else {
            assert(t.take(k) =~= s);
        }
    }
}

fn contains_text(v: &Vec<String>, x: &str) -> (r: bool)
    ensures
        r == names(v@).contains(x@),
{
    let mut i: usize = 0;
    while i < v.len()
        invariant
            i <= v@.len(),
            forall|j: int| 0 <= j < i ==> names(v@)[j] != x@,
        decreases v@.len() - i,
    {
        if text_eq(v[i].as_str(), x) {
            assert(names(v@)[i as int] == x@);
            return true;
        }
        i = i + 1;
    }
    false
}

fn copy_triple(t: &(String, String, String)) -> (r: (String, String, String))
    ensures
        (r.0@, r.1@, r.2@) == (t.0@, t.1@, t.2@),
{
    (owned(t.0.as_str()), owned(t.1.as_str()), owned(t.2.as_str()))
}

/// Adds to `steps` the steps that produce `p[k]`'s child from the pals at hand, parents
/// first, skipping children already produced.
fn visit(
    db: &PalDb,
    es: bool,
    p: &Vec<(String, String, String)>,
    avail: &Vec<String>,
    k: usize,
    visited: &mut Vec<String>,
    steps: &mut Vec<(String, String, String)>,
)
    requires
        k < p@.len(),
        parents_wf(*db, es, names(avail@), triples(p@)),
        names(old(visited)@) == children(triples(old(steps)@)),
        sound_steps(*db, es, names(avail@), triples(old(steps)@)),
        fresh_children(names(avail@), triples(old(steps)@)),
    ensures
        names(final(visited)@) == children(triples(final(steps)@)),
        sound_steps(*db, es, names(avail@), triples(final(steps)@)),
        fresh_children(names(avail@), triples(final(steps)@)),
        drawn_from(triples(p@), triples(final(steps)@), old(steps)@.len() as int, k as int),
        old(steps)@.len() <= final(steps)@.len(),
        triples(final(steps)@).take(old(steps)@.len() as int) == triples(old(steps)@),
        have(names(avail@), triples(final(steps)@), triples(p@)[k as int].2),
        !names(avail@).contains(triples(p@)[k as int].2) && !names(old(visited)@).contains(
            triples(p@)[k as int].2,
        ) ==> final(steps)@.len() > 0 && triples(final(steps)@).last() == triples(p@)[k as int],
    decreases k,
{
    let ghost pv = triples(p@);
    let ghost av = names(avail@);
    let ghost s0 = triples(steps@);
    let node = p[k].2.as_str();
    if contains_text(avail, node) {
        assert(triples(steps@).take(s0.len() as int) =~= s0);
        return;
    }
    if contains_text(visited, node) {
        let ghost j = choose|j: int| 0 <= j < names(visited@).len() && names(visited@)[j] == node@;
        assert(children(triples(steps@))[j] == triples(steps@)[j].2);
        assert(triples(steps@).take(s0.len() as int) =~= s0);
        return;
    }
    assert(!children(s0).contains(pv[k as int].2));
    let mut side: usize = 0;
    while side < 2
        invariant
            side <= 2,
            fresh_children(av, triples(steps@)),
            drawn_from(pv, triples(steps@), s0.len() as int, k - 1),
            k < p@.len(),
            pv == triples(p@),
            av == names(avail@),
            parents_wf(*db, es, av, pv),
            names(visited@) == children(triples(steps@)),
            sound_steps(*db, es, av, triples(steps@)),
            s0.len() <= steps@.len(),
            triples(steps@).take(s0.len() as int) == s0,
            side >= 1 ==> have(av, triples(steps@), pv[k as int].0),
            side >= 2 ==> have(av, triples(steps@), pv[k as int].1),
        decreases 2 - side,
    {
        let parent = if side == 0 {
            p[k].0.as_str()
        } else {
            p[k].1.as_str()
        };
        assert(pv[k as int] == (p@[k as int].0@, p@[k as int].1@, p@[k as int].2@));
        assert(parent@ == (if side == 0 {
            pv[k as int].0
        } else {
            pv[k as int].1
        }));
        let ghost before = triples(steps@);
        if contains_text(avail, parent) {
        } else if contains_text(visited, parent) {
            let ghost j = choose|j: int| 0 <= j < names(visited@).len() && names(visited@)[j] == parent@;
            assert(children(triples(steps@))[j] == triples(steps@)[j].2);
        } else {
            assert(have(av, pv.take(k as int), parent@)) by {
                let t = pv[k as int];
                assert(have(av, pv.take(k as int), t.0) && have(av, pv.take(k as int), t.1));
            }
            let ghost w = choose|m: int| 0 <= m < pv.take(k as int).len() && (#[trigger] pv.take(k as int)[m]).2 == parent@;
            let mut m: usize = 0;
            while m < k && !text_eq(p[m].2.as_str(), parent)
                invariant
                    m <= k,
                    k < p@.len(),
                    pv == triples(p@),
                    0 <= w < k,
                    pv[w].2 == parent@,
                    forall|q: int| 0 <= q < m ==> pv[q].2 != parent@,
                decreases k - m,
            {
                assert(pv[m as int].2 == p@[m as int].2@);
                m = m + 1;
            }
            assert(m < k) by {
                if m >= k {
                    assert(pv.take(k as int)[w] == pv[w]);
                }
            }
            assert(pv[m as int].2 == parent@);
            visit(db, es, p, avail, m, visited, steps);
            proof {
                let after = triples(steps@);
                assert(after.take(before.len() as int) == before);
                assert forall|q: int| s0.len() <= q < after.len() implies exists|m2: int|
                    0 <= m2 <= k - 1 && #[trigger] after[q] == pv[m2] by {
                    if q < before.len() {
                        assert(after.take(before.len() as int)[q] == after[q]);
                        assert(after[q] == before[q]);
                        let m2 = choose|m2: int| 0 <= m2 <= k - 1 && before[q] == #[trigger] pv[m2];
                        assert(after[q] == pv[m2]);
                    } else {
                        let m2 = choose|m2: int| 0 <= m2 <= m && after[q] == #[trigger] pv[m2];
                        assert(after[q] == pv[m2]);
                    }
                }
            }
        }
        proof {
            assert(triples(steps@).take(before.len() as int) =~= before);
            if side == 1 {
                lemma_have_grows(av, before, triples(steps@), pv[k as int].0);
            }
            assert(have(av, triples(steps@), parent@));
            assert(triples(steps@).take(s0.len() as int) =~= s0) by {
                assert(triples(steps@).take(before.len() as int) == before);
                assert forall|q: int| 0 <= q < s0.len() implies triples(steps@)[q] == s0[q] by {
                    assert(triples(steps@).take(before.len() as int)[q] == triples(steps@)[q]);
                    assert(before.take(s0.len() as int)[q] == before[q]);
                }
            }
        }
        side = side + 1;
    }
    let ghost mid = triples(steps@);
    let ghost vmid = names(visited@);
    let e = copy_triple(&p[k]);
    assert(pv[k as int] == (p@[k as int].0@, p@[k as int].1@, p@[k as int].2@));
    let ghost ev = (e.0@, e.1@, e.2@);
    let child = owned(e.2.as_str());
    steps.push(e);
    visited.push(child);
    proof {
        assert(triples(steps@) =~= mid.push(ev));
        assert(pv.take(k as int) =~= pv.take(k as int));
        lemma_sound_push(*db, es, av, mid, ev);
        assert(names(visited@) =~= vmid.push(ev.2));
        assert(children(mid.push(ev)) =~= children(mid).push(ev.2));
        assert(names(visited@) =~= children(triples(steps@)));
        assert(triples(steps@).take(s0.len() as int) =~= s0) by {
            assert forall|q: int| 0 <= q < s0.len() implies triples(steps@)[q] == s0[q] by {
                assert(mid.take(s0.len() as int)[q] == mid[q]);
            }
        }
        assert(triples(steps@)[mid.len() as int].2 == pv[k as int].2);
        assert(mid.take(s0.len() as int) == s0);
        assert forall|q: int| 0 <= q < mid.len() implies mid[q].2 != ev.2 by {
            if q < s0.len() {
                assert(mid.take(s0.len() as int)[q] == mid[q]);
                assert(children(s0)[q] == s0[q].2);
            } else {
                let m2 = choose|m2: int| 0 <= m2 <= k - 1 && mid[q] == #[trigger] pv[m2];
                assert(pv[m2].2 != pv[k as int].2);
            }
        }
        let t = triples(steps@);
        assert(!av.contains(pv[k as int].2));
        assert forall|a: int, b: int| 0 <= b < a < t.len() implies (#[trigger] t[b]).2 != (
        #[trigger] t[a]).2 by {
            if a < mid.len() {
                assert(t[a] == mid[a] && t[b] == mid[b]);
            } else {
                assert(t[b] == mid[b]);
            }
        }
        assert forall|q: int| 0 <= q < t.len() implies !av.contains(#[trigger] t[q].2) by {
            if q < mid.len() {
                assert(t[q] == mid[q]);
            }
        }
        assert forall|q: int| s0.len() <= q < t.len() implies exists|m2: int|
            0 <= m2 <= k && #[trigger] t[q] == pv[m2] by {
            if q < mid.len() {
                assert(t[q] == mid[q]);
                let m2 = choose|m2: int| 0 <= m2 <= k - 1 && mid[q] == #[trigger] pv[m2];
                assert(t[q] == pv[m2]);
            } else {
                assert(t[q] == pv[k as int]);
            }
        }
    }
}

/// The steps that produce `target` (the child of the last parent record) from the pals at
/// hand, each parent produced before it is used.
pub fn reconstruct_breeding_tree(
    db: &PalDb,
    es: bool,
    parent_map: &Vec<(String, String, String)>,
    target_index: usize,
    initial_pals: &Vec<String>,
) -> (r: Vec<(String, String, String)>)
    requires
        target_index < parent_map@.len(),
        parents_wf(*db, es, names(initial_pals@), triples(parent_map@)),
    ensures
        sound_steps(*db, es, names(initial_pals@), triples(r@)),
        fresh_children(names(initial_pals@), triples(r@)),
        r@.len() > 0,
        triples(r@).last().2 == triples(parent_map@)[target_index as int].2,
{
    let mut visited: Vec<String> = Vec::new();
    let mut steps: Vec<(String, String, String)> = Vec::new();
    assert(names(visited@) =~= children(triples(steps@)));
    proof {
        let pv = triples(parent_map@);
        assert(!names(initial_pals@).contains(pv[target_index as int].2));
        assert(!names(visited@).contains(pv[target_index as int].2));
    }
    visit(db, es, parent_map, initial_pals, target_index, &mut visited, &mut steps);
    steps
}


/// No breeding from the pals at hand produces `target`: some set of pals containing them
/// and closed under breeding leaves it out.
pub open spec fn unreachable(db: PalDb, es: bool, avail: Seq<Seq<char>>, target: Seq<char>) -> bool {
    exists|rs: Set<Seq<char>>|
        avail.to_set().subset_of(rs) && closed(db, es, rs) && !rs.contains(target)
}

proof fn lemma_power_fits(db: PalDb, a: Seq<char>, b: Seq<char>)
    requires
        powers_fit(db.pals@),
    ensures
        sum_fits(breed_power_of_name(db.pals@, a), breed_power_of_name(db.pals@, b)),
{
    crate::db::lemma_pal_by_name_found(db.pals@, a);
    crate::db::lemma_pal_by_name_found(db.pals@, b);
    match (pal_by_name(db.pals@, a), pal_by_name(db.pals@, b)) {
        (Some(i), Some(j)) => {
            assert(sum_fits(db.pals@[i].breed_power as int, db.pals@[j].breed_power as int));
        },
        (Some(i), None) => {
            assert(sum_fits(db.pals@[i].breed_power as int, 1500));
        },
        (None, Some(j)) => {
            assert(sum_fits(db.pals@[j].breed_power as int, 1500));
        },
        (None, None) => {},
    }
}

proof fn lemma_children_bound(db: PalDb, es: bool, avail: Seq<Seq<char>>, pv: Seq<(Seq<char>, Seq<char>, Seq<char>)>)
    requires
        parents_wf(db, es, avail, pv),
        forall|k: int| 0 <= k < pv.len() ==> universe(db, es).contains(#[trigger] pv[k].2),
    ensures
        pv.len() <= universe(db, es).len(),
{
    let c = children(pv);
    let u = universe(db, es);
    assert(c.no_duplicates()) by {
        assert forall|x: int, y: int| 0 <= x < c.len() && 0 <= y < c.len() && x != y implies c[x] != c[y] by {
            if x < y {
                assert(pv[x].2 != pv[y].2);
            } else {
                assert(pv[y].2 != pv[x].2);
            }
        }
    }
    c.unique_seq_to_set();
    vstd::seq_lib::seq_to_set_is_finite(u);
    assert(c.to_set().subset_of(u.to_set())) by {
        assert forall|x: Seq<char>| c.to_set().contains(x) implies u.to_set().contains(x) by {
            assert(c.contains(x));
            let k = choose|k: int| 0 <= k < c.len() && c[k] == x;
            assert(pv[k].2 == x);
        }
    }
    vstd::set_lib::lemma_len_subset(c.to_set(), u.to_set());
    u.lemma_cardinality_of_set();
}

/// A breeding plan from the pals at hand to `target`, found by breeding every pair of
/// known pals reached so far, round after round, until the target appears (its plan is
/// then rebuilt from the recorded parents) or a round adds nothing (no plan exists).
pub fn find_breeding_path(db: &PalDb, available_pals: &Vec<String>, target: &str, use_es: bool) -> (r: Option<Vec<(String, String, String)>>)
    requires
        powers_fit(db.pals@),
    ensures
        names(available_pals@).contains(target@) ==> (r matches Some(s) && s@.len() == 0),
        r matches Some(s) ==> valid_plan(*db, use_es, names(available_pals@), target@, triples(s@)),
        r is None ==> unreachable(*db, use_es, names(available_pals@), target@),
{
    let ghost av = names(available_pals@);
    let ghost u = universe(*db, use_es);
    if contains_text(available_pals, target) {
        let e: Vec<(String, String, String)> = Vec::new();
        assert(triples(e@) =~= Seq::empty());
        return Some(e);
    }
    let mut reached: Vec<String> = Vec::new();
    let mut q: usize = 0;
    while q < available_pals.len()
        invariant
            q <= available_pals@.len(),
            av == names(available_pals@),
            names(reached@) == av.take(q as int),
        decreases available_pals@.len() - q,
    {
        let ghost before = names(reached@);
        reached.push(owned(available_pals[q].as_str()));
        assert(av[q as int] == available_pals@[q as int]@);
        assert(names(reached@) =~= before.push(av[q as int]));
        assert(names(reached@) =~= av.take(q + 1));
        q = q + 1;
    }
    assert(av.take(q as int) =~= av);
    let mut parents: Vec<(String, String, String)> = Vec::new();
    assert(names(reached@) =~= av + children(triples(parents@)));
    loop
        invariant
            powers_fit(db.pals@),
            av == names(available_pals@),
            u == universe(*db, use_es),
            !av.contains(target@),
            names(reached@) == av + children(triples(parents@)),
            parents_wf(*db, use_es, av, triples(parents@)),
            forall|k: int| 0 <= k < parents@.len() ==> u.contains(#[trigger] triples(parents@)[k].2),
            !names(reached@).contains(target@),
            reached@.len() <= av.len() + u.len(),
        decreases av.len() + u.len() - reached@.len(),
    {
        let snap = reached.len();
        let ghost rv = names(reached@);
        let mut new_additions = false;
        let mut i: usize = 0;
        while i < snap
            invariant
                powers_fit(db.pals@),
                av == names(available_pals@),
                u == universe(*db, use_es),
                !av.contains(target@),
                names(reached@) == av + children(triples(parents@)),
                parents_wf(*db, use_es, av, triples(parents@)),
                forall|k: int| 0 <= k < parents@.len() ==> u.contains(#[trigger] triples(parents@)[k].2),
                !names(reached@).contains(target@),
                snap == rv.len(),
                snap <= reached@.len(),
                names(reached@).take(snap as int) == rv,
                new_additions == (reached@.len() > snap),
                i <= snap,
                forall|x: int, y: int|
                    0 <= x < i && x <= y < snap && known(*db, rv[x]) && known(*db, rv[y]) ==> names(
                        reached@,
                    ).contains(#[trigger] child_name(*db, rv[x], rv[y], use_es)),
            decreases snap - i,
        {
            let mut j: usize = i;
            while j < snap
                invariant
                    powers_fit(db.pals@),
                    av == names(available_pals@),
                    u == universe(*db, use_es),
                    !av.contains(target@),
                    names(reached@) == av + children(triples(parents@)),
                    parents_wf(*db, use_es, av, triples(parents@)),
                    forall|k: int| 0 <= k < parents@.len() ==> u.contains(#[trigger] triples(parents@)[k].2),
                    !names(reached@).contains(target@),
                    snap == rv.len(),
                    snap <= reached@.len(),
                    names(reached@).take(snap as int) == rv,
                    new_additions == (reached@.len() > snap),
                    i < snap,
                    i <= j <= snap,
                    forall|x: int, y: int|
                        ((0 <= x < i && x <= y < snap) || (x == i && i <= y < j)) && known(
                            *db,
                            rv[x],
                        ) && known(*db, rv[y]) ==> names(reached@).contains(
                            #[trigger] child_name(*db, rv[x], rv[y], use_es),
                        ),
                decreases snap - j,
            {
                assert(names(reached@).take(snap as int)[i as int] == names(reached@)[i as int]);
                assert(names(reached@).take(snap as int)[j as int] == names(reached@)[j as int]);
                let a = owned(reached[i].as_str());
                let b = owned(reached[j].as_str());
                if db.is_known_pal(a.as_str()) && db.is_known_pal(b.as_str()) {
                    proof {
                        lemma_power_fits(*db, a@, b@);
                    }
                    let (child, _avg) = db.find_child_pal(a.as_str(), b.as_str(), use_es);
                    if !contains_text(&reached, child.as_str()) {
                        let ghost pv = triples(parents@);
                        let ghost rs = names(reached@);
                        let ghost e = (a@, b@, child@);
                        proof {
                            assert(rs == av + children(pv));
                            assert(rs.len() == reached@.len());
                            assert(children(pv).len() == pv.len());
                            assert(have(av, pv, a@)) by {
                                assert(rs[i as int] == a@);
                                if !av.contains(a@) {
                                    let idx = i as int;
                                    if idx < av.len() {
                                        assert(rs[idx] == av[idx]);
                                    }
                                    assert(idx >= av.len());
                                    assert(rs[idx] == children(pv)[idx - av.len()]);
                                    assert(pv[idx - av.len()].2 == a@);
                                }
                            }
                            assert(have(av, pv, b@)) by {
                                assert(rs[j as int] == b@);
                                if !av.contains(b@) {
                                    let idx = j as int;
                                    if idx < av.len() {
                                        assert(rs[idx] == av[idx]);
                                    }
                                    assert(idx >= av.len());
                                    assert(rs[idx] == children(pv)[idx - av.len()]);
                                    assert(pv[idx - av.len()].2 == b@);
                                }
                            }
                            lemma_sound_push(*db, use_es, av, pv, e);
                            lemma_child_in_universe(*db, use_es, a@, b@);
                            assert forall|k: int| 0 <= k < pv.len() implies pv[k].2 != child@ by {
                                assert(rs[av.len() + k] == pv[k].2);
                            }
                            assert(!av.contains(child@)) by {
                                if av.contains(child@) {
                                    let w = choose|w: int| 0 <= w < av.len() && av[w] == child@;
                                    assert(rs[w] == child@);
                                }
                            }
                        }
                        let is_target = text_eq(child.as_str(), target);
                        reached.push(owned(child.as_str()));
                        parents.push((a, b, child));
                        new_additions = true;
                        proof {
                            assert(triples(parents@) =~= pv.push(e));
                            assert(names(reached@) =~= rs.push(e.2));
                            assert(children(pv.push(e)) =~= children(pv).push(e.2));
                            assert(names(reached@) =~= av + children(triples(parents@)));
                            assert(names(reached@).take(snap as int) =~= rs.take(snap as int));
                            assert(names(reached@).contains(child_name(*db, rv[i as int], rv[j as int], use_es))) by {
                                assert(names(reached@)[rs.len() as int] == e.2);
                            }
                            assert forall|x: int, y: int|
                                ((0 <= x < i && x <= y < snap) || (x == i && i <= y < j + 1)) && known(
                                    *db,
                                    rv[x],
                                ) && known(*db, rv[y]) implies names(reached@).contains(
                                    #[trigger] child_name(*db, rv[x], rv[y], use_es),
                                ) by {
                                if !(x == i && y == j) {
                                    let cx = child_name(*db, rv[x], rv[y], use_es);
                                    assert(rs.contains(cx));
                                    let w = choose|w: int| 0 <= w < rs.len() && rs[w] == cx;
                                    assert(names(reached@)[w] == cx);
                                }
                            }
                        }
                        if is_target {
                            let last = parents.len() - 1;
                            let steps = reconstruct_breeding_tree(db, use_es, &parents, last, available_pals);
                            return Some(steps);
                        }
                        proof {
                            assert(!names(reached@).contains(target@)) by {
                                if names(reached@).contains(target@) {
                                    let w = choose|w: int| 0 <= w < names(reached@).len() && names(reached@)[w] == target@;
                                    if w < rs.len() {
                                        assert(rs[w] == target@);
                                    }
                                }
                            }
                        }
                    } else {
                        proof {
                            assert(names(reached@).contains(child_name(*db, rv[i as int], rv[j as int], use_es)));
                        }
                    }
                }
                j = j + 1;
            }
            i = i + 1;
        }
        if !new_additions {
            proof {
                let rs = names(reached@);
                assert(rs =~= rv);
                assert(av.to_set().subset_of(rs.to_set())) by {
                    assert forall|x: Seq<char>| av.to_set().contains(x) implies rs.to_set().contains(x) by {
                        let w = choose|w: int| 0 <= w < av.len() && av[w] == x;
                        assert(rs[w] == x);
                    }
                }
                assert(closed(*db, use_es, rs.to_set())) by {
                    assert forall|a: Seq<char>, b: Seq<char>|
                        rs.to_set().contains(a) && rs.to_set().contains(b) && known(*db, a) && known(*db, b)
                        implies rs.to_set().contains(#[trigger] child_name(*db, a, b, use_es)) by {
                        let x = choose|x: int| 0 <= x < rs.len() && rs[x] == a;
                        let y = choose|y: int| 0 <= y < rs.len() && rs[y] == b;
                        lemma_child_symmetric(*db, use_es, a, b);
                        if x <= y {
                            assert(rs.contains(child_name(*db, rv[x], rv[y], use_es)));
                        } else {
                            assert(rs.contains(child_name(*db, rv[y], rv[x], use_es)));
                        }
                    }
                }
                assert(!rs.to_set().contains(target@));
            }
            return None;
        }
        proof {
            lemma_children_bound(*db, use_es, av, triples(parents@));
        }
    }
}

} // verus!
