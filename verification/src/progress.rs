//! A player's exploration progress: relics, notes, fast travel points and areas found,
//! and the capture counts per pal with their capture-bonus state.
use vstd::prelude::*;
use vstd::string::StringSliceAdditionalSpecFns;
use vstd::utf8::encode_utf8;
use crate::db::{bytes_le, bytes_le_exec, owned, PalDb};
use crate::i18n::{translation, I18n};
use crate::report::{bonus_target, capture_bonus};
use crate::scanner::{counted, map_counts, map_keys, try_extract_map_counts, try_extract_map_keys};
use crate::text::text_eq;

verus! {

broadcast use vstd::string::group_string_axioms;

/// The first index from `i` on whose key is `key`.
pub open spec fn key_index(v: Seq<(Seq<char>, nat)>, key: Seq<char>, i: int) -> Option<int>
    decreases v.len() - i,
{
    if i < 0 || i >= v.len() {
        None
    } else if v[i].0 == key {
        Some(i)
    } else {
        key_index(v, key, i + 1)
    }
}

/// Capture counts collected into a map: each pal once, in the order of its first entry,
/// with the count of its last entry.
pub open spec fn merged_counts(v: Seq<(Seq<char>, nat)>) -> Seq<(Seq<char>, nat)>
    decreases v.len(),
{
    if v.len() == 0 {
        Seq::empty()
    } else {
        let acc = merged_counts(v.drop_last());
        let e = v.last();
        match key_index(acc, e.0, 0) {
            Some(j) => acc.update(j, e),
            None => acc.push(e),
        }
    }
}

/// No key occurs twice.
pub open spec fn unique_keys(v: Seq<(Seq<char>, nat)>) -> bool {
    forall|a: int, b: int| 0 <= a < b < v.len() ==> #[trigger] v[a].0 != #[trigger] v[b].0
}

proof fn lemma_key_index(v: Seq<(Seq<char>, nat)>, key: Seq<char>, i: int)
    requires
        0 <= i,
    ensures
        key_index(v, key, i) matches Some(j) ==> i <= j < v.len() && v[j].0 == key,
        key_index(v, key, i) is None ==> forall|j: int| i <= j < v.len() ==> v[j].0 != key,
    decreases v.len() - i,
{
    if i < v.len() && v[i].0 != key {
        lemma_key_index(v, key, i + 1);
    }
}

proof fn lemma_merged_unique(v: Seq<(Seq<char>, nat)>)
    ensures
        unique_keys(merged_counts(v)),
    decreases v.len(),
{
    if v.len() > 0 {
        let w = v.drop_last();
        lemma_merged_unique(w);
        let acc = merged_counts(w);
        let e = v.last();
        lemma_key_index(acc, e.0, 0);
        let r = merged_counts(v);
        match key_index(acc, e.0, 0) {
            Some(j) => {
                assert forall|a: int, b: int| 0 <= a < b < r.len() implies #[trigger] r[a].0
                    != #[trigger] r[b].0 by {
                    assert(r[a].0 == acc[a].0);
                    assert(r[b].0 == acc[b].0);
                }
            },
            None => {
                assert forall|a: int, b: int| 0 <= a < b < r.len() implies #[trigger] r[a].0
                    != #[trigger] r[b].0 by {
                    if b == acc.len() {
                        assert(r[a] == acc[a]);
                    } else {
                        assert(r[a] == acc[a]);
                        assert(r[b] == acc[b]);
                    }
                }
            },
        }
    }
}

/// Whether some row of `r` has the key `key`.
pub open spec fn has_key(r: Seq<(Seq<char>, nat)>, key: Seq<char>) -> bool {
    exists|j: int| 0 <= j < r.len() && r[j].0 == key
}

proof fn lemma_merged_keys(v: Seq<(Seq<char>, nat)>)
    ensures
        forall|k: int| 0 <= k < v.len() ==> has_key(merged_counts(v), #[trigger] v[k].0),
    decreases v.len(),
{
    if v.len() > 0 {
        let w = v.drop_last();
        lemma_merged_keys(w);
        let acc = merged_counts(w);
        let e = v.last();
        lemma_key_index(acc, e.0, 0);
        let r = merged_counts(v);
        assert forall|k: int| 0 <= k < v.len() implies has_key(r, #[trigger] v[k].0) by {
            if k == v.len() - 1 {
                match key_index(acc, e.0, 0) {
                    Some(j) => {
                        assert(r[j].0 == v[k].0);
                    },
                    None => {
                        assert(r[acc.len() as int].0 == v[k].0);
                    },
                }
            } else {
                assert(w[k] == v[k]);
                assert(has_key(acc, w[k].0));
                let j = choose|j: int| 0 <= j < acc.len() && acc[j].0 == w[k].0;
                assert(r[j].0 == v[k].0);
            }
        }
    }
}

/// Whether `x` is the last entry of `v` with its key.
pub open spec fn last_entry(v: Seq<(Seq<char>, nat)>, x: (Seq<char>, nat)) -> bool {
    exists|k: int|
        0 <= k < v.len() && v[k] == x && forall|m: int| k < m < v.len() ==> (#[trigger] v[m]).0 != x.0
}

proof fn lemma_merged_last(v: Seq<(Seq<char>, nat)>)
    ensures
        forall|j: int| 0 <= j < merged_counts(v).len() ==> last_entry(v, #[trigger] merged_counts(v)[j]),
    decreases v.len(),
{
    if v.len() > 0 {
        let w = v.drop_last();
        lemma_merged_last(w);
        lemma_merged_unique(w);
        let acc = merged_counts(w);
        let e = v.last();
        lemma_key_index(acc, e.0, 0);
        let r = merged_counts(v);
        assert forall|j: int| 0 <= j < r.len() implies last_entry(v, #[trigger] r[j]) by {
            let last = v.len() - 1;
            if r[j] == e {
                assert(v[last] == r[j]);
            } else {
                assert(j < acc.len());
                assert(r[j] == acc[j]);
                assert(last_entry(w, acc[j]));
                let k = choose|k: int|
                    0 <= k < w.len() && w[k] == acc[j] && forall|m: int|
                        k < m < w.len() ==> (#[trigger] w[m]).0 != acc[j].0;
                assert(acc[j].0 != e.0) by {
                    match key_index(acc, e.0, 0) {
                        Some(j2) => {
                            assert(r[j2] == e);
                            assert(j != j2);
                            assert(acc[j2].0 == e.0);
                            if j < j2 {
                                assert(acc[j].0 != acc[j2].0);
                            } else {
                                assert(acc[j2].0 != acc[j].0);
                            }
                        },
                        None => {},
                    }
                }
                assert(v[k] == w[k]);
                assert forall|m: int| k < m < v.len() implies (#[trigger] v[m]).0 != acc[j].0 by {
                    if m < w.len() {
                        assert(v[m] == w[m]);
                    }
                }
            }
        }
    }
}

/// Collecting capture counts keeps each pal once, keeps every pal of the entries, and
/// keeps for each pal its last entry.
pub proof fn lemma_merged_counts(v: Seq<(Seq<char>, nat)>)
    ensures
        unique_keys(merged_counts(v)),
        forall|k: int| 0 <= k < v.len() ==> has_key(merged_counts(v), #[trigger] v[k].0),
        forall|j: int| 0 <= j < merged_counts(v).len() ==> last_entry(v, #[trigger] merged_counts(v)[j]),
{
    lemma_merged_unique(v);
    lemma_merged_keys(v);
    lemma_merged_last(v);
}

fn find_key(v: &Vec<(String, u32)>, key: &str) -> (r: Option<usize>)
    ensures
        crate::wire::opt_pos(r) == key_index(pairs_view(v@), key@, 0),
{
    let ghost acc = pairs_view(v@);
    let mut j: usize = 0;
    while j < v.len()
        invariant
            j <= v@.len(),
            acc == pairs_view(v@),
            key_index(acc, key@, 0) == key_index(acc, key@, j as int),
        decreases v@.len() - j,
    {
        if text_eq(v[j].0.as_str(), key) {
            return Some(j);
        }
        j = j + 1;
    }
    None
}

/// Views of `(text, count)` pairs.
pub open spec fn pairs_view(v: Seq<(String, u32)>) -> Seq<(Seq<char>, nat)> {
    v.map_values(|e: (String, u32)| (e.0@, e.1 as nat))
}

/// Collects capture counts into a map (see `merged_counts`): each pal once, with the
/// count of its last entry.
pub fn merge_counts(entries: &Vec<(String, u32)>) -> (r: Vec<(String, u32)>)
    ensures
        pairs_view(r@) == merged_counts(pairs_view(entries@)),
        unique_keys(pairs_view(r@)),
{
    let ghost ev = pairs_view(entries@);
    let mut out: Vec<(String, u32)> = Vec::new();
    let mut k: usize = 0;
    assert(ev.take(0) =~= Seq::<(Seq<char>, nat)>::empty());
    assert(pairs_view(out@) =~= merged_counts(ev.take(0)));
    while k < entries.len()
        invariant
            k <= entries@.len(),
            ev == pairs_view(entries@),
            pairs_view(out@) == merged_counts(ev.take(k as int)),
        decreases entries@.len() - k,
    {
        let ghost acc = pairs_view(out@);
        let key = entries[k].0.as_str();
        let found = find_key(&out, key);
        assert(ev.take(k + 1).drop_last() =~= ev.take(k as int));
        assert(ev.take(k + 1).last() == ev[k as int]);
        let entry = (owned(key), entries[k].1);
        match found {
            Some(j) => {
                proof {
                    lemma_key_index(acc, key@, 0);
                }
                out.set(j, entry);
                assert(pairs_view(out@) =~= acc.update(j as int, ev[k as int]));
            },
            None => {
                out.push(entry);
                assert(pairs_view(out@) =~= acc.push(ev[k as int]));
            },
        }
        k = k + 1;
    }
    assert(ev.take(k as int) =~= ev);
    proof {
        lemma_merged_counts(ev);
    }
    out
}

/// The progress figures of a player save: relics, notes, fast travel points and areas
/// found (the number of keys of each map), and the capture counts per pal.
pub open spec fn progress_of(s: Seq<u8>) -> Option<(nat, nat, nat, nat, Seq<(Seq<char>, nat)>)> {
    match (
        map_keys(s, "RelicObtainForInstanceFlag\0".spec_bytes()),
        map_keys(s, "NoteObtainForInstanceFlag\0".spec_bytes()),
        map_keys(s, "FastTravelPointUnlockFlag\0".spec_bytes()),
        map_keys(s, "FindAreaFlagMap\0".spec_bytes()),
        map_counts(s, "PalCaptureCount\0".spec_bytes()),
    ) {
        (Some(r), Some(n), Some(f), Some(a), Some(c)) => Some(
            (r.len(), n.len(), f.len(), a.len(), merged_counts(c)),
        ),
        _ => None,
    }
}

/// A player's progress figures.
#[derive(Debug, Clone)]
pub struct Progress {
    pub relics_found: usize,
    pub notes_found: usize,
    pub fast_travels_unlocked: usize,
    pub areas_discovered: usize,
    pub captures: Vec<(String, u32)>,
}

/// The progress figures of a player save (see `progress_of`), `None` where the
/// bytes are malformed.
pub fn read_progress(bytes: &[u8]) -> (r: Option<Progress>)
    requires
        bytes@.len() <= isize::MAX,
    ensures
        progress_of(bytes@) is None ==> r is None,
        progress_of(bytes@) matches Some((rl, nt, ft, ar, cs)) ==> r matches Some(p) && p.relics_found
            == rl && p.notes_found == nt && p.fast_travels_unlocked == ft && p.areas_discovered
            == ar && pairs_view(p.captures@) == cs,
{
    let relics = try_extract_map_keys(bytes, "RelicObtainForInstanceFlag\0".as_bytes());
    let notes = try_extract_map_keys(bytes, "NoteObtainForInstanceFlag\0".as_bytes());
    let travels = try_extract_map_keys(bytes, "FastTravelPointUnlockFlag\0".as_bytes());
    let areas = try_extract_map_keys(bytes, "FindAreaFlagMap\0".as_bytes());
    let captures = try_extract_map_counts(bytes, "PalCaptureCount\0".as_bytes());
    match (relics, notes, travels, areas, captures) {
        (Some(r), Some(n), Some(f), Some(a), Some(c)) => {
            assert(pairs_view(c@) =~= counted(c@));
            Some(
                Progress {
                    relics_found: r.len(),
                    notes_found: n.len(),
                    fast_travels_unlocked: f.len(),
                    areas_discovered: a.len(),
                    captures: merge_counts(&c),
                },
            )
        },
        _ => None,
    }
}

/// A capture row: pal id, translated name, count, whether the capture bonus is complete
/// and how many captures it still needs.
pub type CaptureView = (Seq<char>, Seq<char>, nat, bool, nat);

/// The capture row of a pal.
pub open spec fn capture_row(db: PalDb, i: I18n, e: (Seq<char>, nat)) -> CaptureView {
    (
        e.0,
        translation(db, i.current, i.es@, i.en@, e.0),
        e.1,
        e.1 >= bonus_target(),
        if e.1 >= bonus_target() {
            0
        } else {
            (bonus_target() - e.1) as nat
        },
    )
}

/// Inserts a row after every row whose name is not greater (byte order): the step of a
/// stable insertion sort by name.
pub open spec fn insert_by_name(v: Seq<CaptureView>, x: CaptureView) -> Seq<CaptureView>
    decreases v.len(),
{
    if v.len() == 0 {
        seq![x]
    } else if bytes_le(encode_utf8(v.last().1), encode_utf8(x.1)) {
        v.push(x)
    } else {
        insert_by_name(v.drop_last(), x).push(v.last())
    }
}

/// Rows ordered by translated name (byte order of the names).
pub open spec fn ordered_by_name(v: Seq<CaptureView>) -> bool {
    forall|a: int, b: int|
        0 <= a < b < v.len() ==> bytes_le(encode_utf8(#[trigger] v[a].1), encode_utf8(#[trigger] v[b].1))
}

proof fn lemma_insert_by_name(v: Seq<CaptureView>, x: CaptureView)
    requires
        ordered_by_name(v),
    ensures
        ordered_by_name(insert_by_name(v, x)),
        insert_by_name(v, x).to_multiset() =~= v.to_multiset().insert(x),
    decreases v.len(),
{
    broadcast use vstd::seq_lib::group_to_multiset_ensures;

    if v.len() == 0 {
        assert(insert_by_name(v, x) =~= v.push(x));
    } else if bytes_le(encode_utf8(v.last().1), encode_utf8(x.1)) {
        let r = v.push(x);
        assert forall|a: int, b: int| 0 <= a < b < r.len() implies bytes_le(
            encode_utf8(#[trigger] r[a].1),
            encode_utf8(#[trigger] r[b].1),
        ) by {
            if b == v.len() {
                if a < v.len() - 1 {
                    assert(bytes_le(encode_utf8(v[a].1), encode_utf8(v[v.len() - 1].1)));
                    crate::db::lemma_bytes_le_trans(
                        encode_utf8(v[a].1),
                        encode_utf8(v.last().1),
                        encode_utf8(x.1),
                    );
                }
            } else {
                assert(r[a] == v[a] && r[b] == v[b]);
            }
        }
    } else {
        let w = v.drop_last();
        let last = v.last();
        assert(w.push(last) =~= v);
        crate::db::lemma_bytes_le_total(encode_utf8(last.1), encode_utf8(x.1));
        assert forall|a: int, b: int| 0 <= a < b < w.len() implies bytes_le(
            encode_utf8(#[trigger] w[a].1),
            encode_utf8(#[trigger] w[b].1),
        ) by {
            assert(w[a] == v[a] && w[b] == v[b]);
        }
        lemma_insert_by_name(w, x);
        let m = insert_by_name(w, x);
        let r = insert_by_name(v, x);
        assert(r == m.push(last));
        assert forall|a: int, b: int| 0 <= a < b < r.len() implies bytes_le(
            encode_utf8(#[trigger] r[a].1),
            encode_utf8(#[trigger] r[b].1),
        ) by {
            if b < m.len() {
                assert(r[a] == m[a] && r[b] == m[b]);
            } else {
                let e = m[a];
                assert(r[a] == e);
                assert(m.contains(e));
                assert(m.to_multiset().count(e) > 0);
                if e != x {
                    assert(w.to_multiset().count(e) > 0);
                    assert(w.contains(e));
                    let q = choose|q: int| 0 <= q < w.len() && w[q] == e;
                    assert(v[q] == e);
                    assert(bytes_le(encode_utf8(v[q].1), encode_utf8(v[v.len() - 1].1)));
                }
            }
        }
        assert(r.to_multiset() =~= m.to_multiset().insert(last));
    }
}

/// The capture table lists exactly the capture entries' rows (a permutation of them, each
/// entry once), ordered by translated name.
pub proof fn lemma_capture_rows_sorted(db: PalDb, i: I18n, v: Seq<(Seq<char>, nat)>, n: nat)
    requires
        n <= v.len(),
    ensures
        ordered_by_name(capture_rows(db, i, v, n)),
        capture_rows(db, i, v, n).to_multiset() =~= v.take(n as int).map_values(
            |e: (Seq<char>, nat)| capture_row(db, i, e),
        ).to_multiset(),
    decreases n,
{
    broadcast use vstd::seq_lib::group_to_multiset_ensures;

    let f = |e: (Seq<char>, nat)| capture_row(db, i, e);
    if n == 0 {
        assert(v.take(0).map_values(f) =~= Seq::<CaptureView>::empty());
        assert(capture_rows(db, i, v, 0) =~= Seq::<CaptureView>::empty());
    } else {
        let k = (n - 1) as nat;
        lemma_capture_rows_sorted(db, i, v, k);
        lemma_insert_by_name(capture_rows(db, i, v, k), capture_row(db, i, v[k as int]));
        assert(v.take(n as int).map_values(f) =~= v.take(k as int).map_values(f).push(
            capture_row(db, i, v[k as int]),
        ));
    }
}

/// A row describes a capture entry: the entry's pal and count, the pal's translated
/// name, the bonus complete exactly at 10 captures or more, and otherwise the captures
/// still missing up to 10.
pub open spec fn describes(db: PalDb, i: I18n, r: CaptureView, e: (Seq<char>, nat)) -> bool {
    &&& r.0 == e.0
    &&& r.1 == translation(db, i.current, i.es@, i.en@, e.0)
    &&& r.2 == e.1
    &&& r.3 <==> e.1 >= 10
    &&& r.3 ==> r.4 == 0
    &&& !r.3 ==> r.2 + r.4 == 10
}

/// Every row of the capture table describes one of the capture entries.
pub proof fn lemma_capture_rows_describe(db: PalDb, i: I18n, v: Seq<(Seq<char>, nat)>, n: nat)
    requires
        n <= v.len(),
    ensures
        forall|k: int|
            0 <= k < capture_rows(db, i, v, n).len() ==> exists|j: int|
                0 <= j < n && describes(db, i, #[trigger] capture_rows(db, i, v, n)[k], v[j]),
{
    broadcast use vstd::seq_lib::group_to_multiset_ensures;

    lemma_capture_rows_sorted(db, i, v, n);
    let rows = capture_rows(db, i, v, n);
    let src = v.take(n as int).map_values(|e: (Seq<char>, nat)| capture_row(db, i, e));
    assert forall|k: int| 0 <= k < rows.len() implies exists|j: int|
        0 <= j < n && describes(db, i, #[trigger] rows[k], v[j]) by {
        let r = rows[k];
        assert(rows.contains(r));
        assert(rows.to_multiset().count(r) > 0);
        assert(src.to_multiset().count(r) > 0);
        assert(src.contains(r));
        let j = choose|j: int| 0 <= j < src.len() && src[j] == r;
        assert(r == capture_row(db, i, v[j]));
        assert(describes(db, i, r, v[j]));
    }
}

/// The capture rows of the first `n` entries, stably sorted by translated name.
pub open spec fn capture_rows(db: PalDb, i: I18n, v: Seq<(Seq<char>, nat)>, n: nat) -> Seq<CaptureView>
    decreases n,
{
    if n == 0 {
        Seq::empty()
    } else {
        let k = (n - 1) as nat;
        insert_by_name(capture_rows(db, i, v, k), capture_row(db, i, v[k as int]))
    }
}

/// One row of the capture bonus table.
#[derive(Debug, Clone)]
pub struct CaptureRow {
    pub pal_id: String,
    pub pal_name: String,
    pub count: u32,
    pub bonus_completed: bool,
    pub missing_for_bonus: u32,
}

/// The view of a capture row.
pub open spec fn row_view(r: CaptureRow) -> CaptureView {
    (r.pal_id@, r.pal_name@, r.count as nat, r.bonus_completed, r.missing_for_bonus as nat)
}

/// Views of capture rows.
pub open spec fn rows_view(v: Seq<CaptureRow>) -> Seq<CaptureView> {
    v.map_values(|r: CaptureRow| row_view(r))
}

fn insert_row(v: &mut Vec<CaptureRow>, x: CaptureRow)
    ensures
        rows_view(final(v)@) == insert_by_name(rows_view(old(v)@), row_view(x)),
    decreases old(v)@.len(),
{
    if v.len() == 0 {
        let ghost xv = row_view(x);
        v.push(x);
        assert(rows_view(v@) =~= seq![xv]);
        return;
    }
    let ghost old_view = rows_view(v@);
    assert(old_view.last() == row_view(v@.last()));
    let le = bytes_le_exec(v[v.len() - 1].pal_name.as_str().as_bytes(), x.pal_name.as_str().as_bytes());
    if le {
        let ghost xv = row_view(x);
        v.push(x);
        assert(rows_view(v@) =~= old_view.push(xv));
    } else {
        let last = v.pop().unwrap();
        assert(rows_view(v@) =~= old_view.drop_last());
        insert_row(v, x);
        let ghost mid = rows_view(v@);
        let ghost lv = row_view(last);
        v.push(last);
        assert(rows_view(v@) =~= mid.push(lv));
    }
}

/// The capture bonus table: one row per pal with its translated name, stably sorted by
/// name (see `capture_rows`).
pub fn capture_table(db: &PalDb, i: &I18n, captures: &Vec<(String, u32)>) -> (r: Vec<CaptureRow>)
    ensures
        rows_view(r@) == capture_rows(*db, *i, pairs_view(captures@), captures@.len()),
        ordered_by_name(rows_view(r@)),
        rows_view(r@).to_multiset() == pairs_view(captures@).map_values(
            |e: (Seq<char>, nat)| capture_row(*db, *i, e),
        ).to_multiset(),
{
    let ghost cv = pairs_view(captures@);
    let mut out: Vec<CaptureRow> = Vec::new();
    let mut k: usize = 0;
    assert(rows_view(out@) =~= Seq::<CaptureView>::empty());
    while k < captures.len()
        invariant
            k <= captures@.len(),
            cv == pairs_view(captures@),
            rows_view(out@) == capture_rows(*db, *i, cv, k as nat),
        decreases captures@.len() - k,
    {
        let id = captures[k].0.as_str();
        let count = captures[k].1;
        let name = i.t(db, id);
        let (done, missing) = capture_bonus(count);
        let row = CaptureRow {
            pal_id: owned(id),
            pal_name: name,
            count,
            bonus_completed: done,
            missing_for_bonus: missing,
        };
        assert(row_view(row) == capture_row(*db, *i, cv[k as int]));
        insert_row(&mut out, row);
        k = k + 1;
    }
    proof {
        lemma_capture_rows_sorted(*db, *i, cv, cv.len());
        assert(cv.take(cv.len() as int) =~= cv);
    }
    out
}

} // verus!
