//! Per-pal reports built from character records: the analyzer's view of each pal (level,
//! gender, talents, passive skills) and the chest search over storage containers.
use vstd::prelude::*;
use vstd::string::StringSliceAdditionalSpecFns;
use crate::guid::guid_text;
use crate::level::CharacterEntry;
use crate::scanner::{
    array_strings, bool_prop, byte_prop, extract_guid_bytes_prop, guid_bytes_prop, has_prop,
    int_prop, prop_pos, string_prop, texts, try_extract_array_strings, try_extract_bool_prop,
    try_extract_byte_prop, try_extract_int_prop, try_extract_string_prop,
};
use crate::text::{has_sub, lowercase, text_contains, text_eq, to_lowercase};
use crate::db::PalDb;
use crate::measure::{fixed_point_prop, float_prop, try_extract_fixed_point_prop, try_extract_float_prop};
use crate::i18n::{translation, I18n};
use crate::level::{
    chest_view, chests_from, chests_view, container_items, items_view, try_find_chest_containers,
    try_parse_container_items,
};
use crate::report::{item_matches, item_matches_query};

verus! {

broadcast use vstd::string::group_string_axioms;

/// A pal's gender as the reports show it.
#[derive(Clone, Copy, PartialEq, Eq, Structural, Debug)]
pub enum GenderKind {
    Female,
    Male,
    Unknown,
}

/// The gender named by a `Gender` value (`Female` is looked for first, as `Male` does not
/// occur in it).
pub open spec fn gender_of(g: Seq<char>) -> GenderKind {
    if has_sub(g, "Female"@) {
        GenderKind::Female
    } else if has_sub(g, "Male"@) {
        GenderKind::Male
    } else {
        GenderKind::Unknown
    }
}

/// The gender named by a `Gender` value (see `gender_of`).
pub fn gender_kind(g: &str) -> (r: GenderKind)
    ensures
        r == gender_of(g@),
{
    if text_contains(g, "Female") {
        GenderKind::Female
    } else if text_contains(g, "Male") {
        GenderKind::Male
    } else {
        GenderKind::Unknown
    }
}

/// The owner's GUID text of a record (empty when it has none).
pub open spec fn owner_of(raw: Seq<u8>) -> Seq<char> {
    match guid_bytes_prop(raw, "OwnerPlayerUId\0".spec_bytes()) {
        Some(g) => guid_text(g),
        None => Seq::empty(),
    }
}

/// A talent value: the integer property when the record has it, else 0; `None` where
/// the bytes are malformed (a record shorter than the name, or a cut-off value).
pub open spec fn talent(raw: Seq<u8>, name: Seq<u8>) -> Option<int> {
    if raw.len() < name.len() {
        None
    } else if prop_pos(raw, name) is Some {
        int_prop(raw, name)
    } else {
        Some(0)
    }
}

/// What the analyzer shows of a pal: id, level (at least 1), gender, the health, attack
/// and defense talents, and the passive skills.
pub type AnalysisView = (Seq<char>, nat, GenderKind, int, int, int, Seq<Seq<char>>);

/// The analyzer's reading of one character record. Player characters, pals of another
/// player than `target` (when one is given) and records without a usable id (empty or
/// `Desconocido`) give `Some(None)`; `None` where the record's
/// bytes are malformed.
pub open spec fn pal_analysis(raw: Seq<u8>, target: Option<Seq<char>>) -> Option<Option<AnalysisView>> {
    match bool_prop(raw, "IsPlayer\0".spec_bytes()) {
        None => None,
        Some(true) => Some(None),
        Some(false) => if raw.len() < "OwnerPlayerUId\0".spec_bytes().len() {
            None
        } else if target matches Some(u) && owner_of(raw) != u {
            Some(None)
        } else {
            match string_prop(raw, "CharacterID\0".spec_bytes()) {
                None => None,
                Some(cid) => if cid.len() == 0 || cid == "Desconocido"@ {
                    Some(None)
                } else {
                    match (
                        byte_prop(raw, "Level\0".spec_bytes()),
                        string_prop(raw, "Gender\0".spec_bytes()),
                        talent(raw, "Talent_HP\0".spec_bytes()),
                        talent(raw, "Talent_Shot\0".spec_bytes()),
                        talent(raw, "Talent_Defense\0".spec_bytes()),
                        array_strings(raw, "PassiveSkillList\0".spec_bytes()),
                    ) {
                        (Some(l), Some(g), Some(h), Some(a), Some(d), Some(p)) => Some(
                            Some(
                                (
                                    cid,
                                    if l == 0 {
                                        1
                                    } else {
                                        l
                                    },
                                    gender_of(g),
                                    h,
                                    a,
                                    d,
                                    p,
                                ),
                            ),
                        ),
                        _ => None,
                    }
                },
            }
        },
    }
}

/// One pal as the analyzer shows it.
#[derive(Debug, Clone)]
pub struct PalAnalysis {
    pub pal_id: String,
    pub level: u32,
    pub gender: GenderKind,
    pub iv_hp: i32,
    pub iv_attack: i32,
    pub iv_defense: i32,
    pub passives: Vec<String>,
}

/// The view of an analyzer entry.
pub open spec fn analysis_view(a: PalAnalysis) -> AnalysisView {
    (
        a.pal_id@,
        a.level as nat,
        a.gender,
        a.iv_hp as int,
        a.iv_attack as int,
        a.iv_defense as int,
        texts(a.passives@),
    )
}

fn try_talent(raw: &[u8], name: &[u8]) -> (r: Option<i32>)
    requires
        raw@.len() <= isize::MAX,
    ensures
        talent(raw@, name@) is None ==> r is None,
        talent(raw@, name@) matches Some(v) ==> r == Some(v as i32),
{
    if raw.len() < name.len() {
        return None;
    }
    if has_prop(raw, name) {
        try_extract_int_prop(raw, name)
    } else {
        Some(0)
    }
}

/// The analyzer's reading of one character record (see `pal_analysis`).
pub fn analyze_pal(raw: &[u8], target: Option<&str>) -> (r: Option<Option<PalAnalysis>>)
    requires
        raw@.len() <= isize::MAX,
    ensures
        pal_analysis(
            raw@,
            match target {
                Some(u) => Some(u@),
                None => None,
            },
        ) is None ==> r is None,
        pal_analysis(
            raw@,
            match target {
                Some(u) => Some(u@),
                None => None,
            },
        ) matches Some(None) ==> r matches Some(None),
        pal_analysis(
            raw@,
            match target {
                Some(u) => Some(u@),
                None => None,
            },
        ) matches Some(Some(v)) ==> r matches Some(Some(a)) && analysis_view(a) == v,
{
    let is_player = match try_extract_bool_prop(raw, "IsPlayer\0".as_bytes()) {
        None => return None,
        Some(b) => b,
    };
    if is_player {
        return Some(None);
    }
    let owner_pat = "OwnerPlayerUId\0".as_bytes();
    if raw.len() < owner_pat.len() {
        return None;
    }
    let owner = match extract_guid_bytes_prop(raw, owner_pat) {
        Some(g) => crate::guid::format_guid(&g),
        None => String::new(),
    };
    if let Some(u) = target {
        if !text_eq(owner.as_str(), u) {
            return Some(None);
        }
    }
    let cid = match try_extract_string_prop(raw, "CharacterID\0".as_bytes()) {
        None => return None,
        Some(c) => c,
    };
    if cid.as_str().is_empty() || text_eq(cid.as_str(), "Desconocido") {
        return Some(None);
    }
    let level = try_extract_byte_prop(raw, "Level\0".as_bytes());
    let gender = try_extract_string_prop(raw, "Gender\0".as_bytes());
    let hp = try_talent(raw, "Talent_HP\0".as_bytes());
    let atk = try_talent(raw, "Talent_Shot\0".as_bytes());
    let def = try_talent(raw, "Talent_Defense\0".as_bytes());
    let passives = try_extract_array_strings(raw, "PassiveSkillList\0".as_bytes());
    match (level, gender, hp, atk, def, passives) {
        (Some(l), Some(g), Some(h), Some(a), Some(d), Some(p)) => {
            let level = if l == 0 {
                1
            } else {
                l
            };
            let gender = gender_kind(g.as_str());
            Some(
                Some(
                    PalAnalysis {
                        pal_id: cid,
                        level,
                        gender,
                        iv_hp: h,
                        iv_attack: a,
                        iv_defense: d,
                        passives: p,
                    },
                ),
            )
        },
        _ => None,
    }
}

/// Views of analyzer entries.
pub open spec fn analyses_view(v: Seq<PalAnalysis>) -> Seq<AnalysisView> {
    v.map_values(|a: PalAnalysis| analysis_view(a))
}

/// The analyzer's entries for the first `n` records, in record order; `None` where
/// one of them cannot be read.
#[verifier::opaque]
pub open spec fn analyses(chars: Seq<CharacterEntry>, target: Option<Seq<char>>, n: nat) -> Option<Seq<AnalysisView>>
    decreases n,
{
    if n == 0 {
        Some(Seq::empty())
    } else {
        let k = (n - 1) as nat;
        match analyses(chars, target, k) {
            None => None,
            Some(rest) => match pal_analysis(chars[k as int].raw_data@, target) {
                None => None,
                Some(None) => Some(rest),
                Some(Some(v)) => Some(rest.push(v)),
            },
        }
    }
}

proof fn lemma_analyses_none_stays(chars: Seq<CharacterEntry>, target: Option<Seq<char>>, k: nat, n: nat)
    requires
        k <= n,
        analyses(chars, target, k) is None,
    ensures
        analyses(chars, target, n) is None,
    decreases n - k,
{
    reveal(analyses);
    if k < n {
        lemma_analyses_none_stays(chars, target, k, (n - 1) as nat);
    }
}

proof fn lemma_analyses_step(chars: Seq<CharacterEntry>, target: Option<Seq<char>>, k: nat)
    ensures
        analyses(chars, target, 0) == Some(Seq::<AnalysisView>::empty()),
        analyses(chars, target, k + 1) == match analyses(chars, target, k) {
            None => None,
            Some(rest) => match pal_analysis(chars[k as int].raw_data@, target) {
                None => None,
                Some(None) => Some(rest),
                Some(Some(v)) => Some(rest.push(v)),
            },
        },
{
    reveal(analyses);
}

/// The analyzer's report over all character records (see `analyses`), for the pals of
/// `target` when one is given.
pub fn analyze_pals(chars: &Vec<CharacterEntry>, target: Option<&str>) -> (r: Option<Vec<PalAnalysis>>)
    requires
        forall|k: int| 0 <= k < chars@.len() ==> (#[trigger] chars@[k]).raw_data@.len() <= isize::MAX,
    ensures
        analyses(
            chars@,
            match target {
                Some(u) => Some(u@),
                None => None,
            },
            chars@.len(),
        ) is None ==> r is None,
        analyses(
            chars@,
            match target {
                Some(u) => Some(u@),
                None => None,
            },
            chars@.len(),
        ) matches Some(v) ==> r matches Some(rv) && analyses_view(rv@) == v,
{
    let ghost t = match target {
        Some(u) => Some(u@),
        None => None,
    };
    let mut out: Vec<PalAnalysis> = Vec::new();
    let mut k: usize = 0;
    assert(analyses_view(out@) =~= Seq::<AnalysisView>::empty());
    proof {
        lemma_analyses_step(chars@, t, 0);
    }
    while k < chars.len()
        invariant
            k <= chars@.len(),
            t == (match target {
                Some(u) => Some(u@),
                None => None,
            }),
            forall|q: int| 0 <= q < chars@.len() ==> (#[trigger] chars@[q]).raw_data@.len() <= isize::MAX,
            analyses(chars@, t, k as nat) == Some(analyses_view(out@)),
        decreases chars@.len() - k,
    {
        proof {
            lemma_analyses_step(chars@, t, k as nat);
        }
        match analyze_pal(chars[k].raw_data.as_slice(), target) {
            None => {
                proof {
                    lemma_analyses_none_stays(chars@, t, (k + 1) as nat, chars@.len());
                }
                return None;
            },
            Some(None) => {},
            Some(Some(a)) => {
                let ghost before = out@;
                out.push(a);
                proof {
                    assert(analyses_view(out@) =~= analyses_view(before).push(analysis_view(a)));
                }
            },
        }
        k = k + 1;
    }
    Some(out)
}

/// A chest search hit: item id, item name, count, the container's GUID bytes, the chest
/// type and the chest's position (bit patterns of three `f64`).
pub type HitView = (Seq<char>, Seq<char>, nat, Seq<u8>, Seq<char>, (nat, nat, nat));

/// A chest as listed by the container scan: GUID bytes, type and position.
pub type ChestView = (Seq<u8>, Seq<char>, (nat, nat, nat));

/// The hits among the first `n` items of one chest: items whose id or translated name
/// contains the query.
pub open spec fn item_hits(
    db: PalDb,
    i: I18n,
    items: Seq<(nat, Seq<char>, nat)>,
    chest: ChestView,
    q: Seq<char>,
    n: nat,
) -> Seq<HitView>
    decreases n,
{
    if n == 0 {
        Seq::empty()
    } else {
        let k = (n - 1) as nat;
        let rest = item_hits(db, i, items, chest, q, k);
        let it = items[k as int];
        let name = translation(db, i.current, i.es@, i.en@, it.1);
        if item_matches(it.1, name, q) {
            rest.push((it.1, name, it.2, chest.0, chest.1, chest.2))
        } else {
            rest
        }
    }
}

/// The hit that an item of a chest gives: its id, translated name and count, with the
/// chest's GUID bytes, type and position.
pub open spec fn hit_for(db: PalDb, i: I18n, chest: ChestView, it: (nat, Seq<char>, nat)) -> HitView {
    let name = translation(db, i.current, i.es@, i.en@, it.1);
    (it.1, name, it.2, chest.0, chest.1, chest.2)
}

/// Whether an item answers a (lowercase) query: its lowercase id or lowercase translated
/// name contains it.
pub open spec fn answers_query(db: PalDb, i: I18n, q: Seq<char>) -> spec_fn((nat, Seq<char>, nat)) -> bool {
    |it: (nat, Seq<char>, nat)|
        has_sub(lowercase(it.1), q) || has_sub(
            lowercase(translation(db, i.current, i.es@, i.en@, it.1)),
            q,
        )
}

/// The hits of a chest are exactly its items that answer the query, each once, in slot
/// order: every matching item gives one hit and no other item gives any, so a chest has
/// as many hits as matching items.
pub proof fn lemma_item_hits_are_matches(
    db: PalDb,
    i: I18n,
    items: Seq<(nat, Seq<char>, nat)>,
    chest: ChestView,
    q: Seq<char>,
    n: nat,
)
    requires
        n <= items.len(),
    ensures
        item_hits(db, i, items, chest, q, n) == items.take(n as int).filter(
            answers_query(db, i, q),
        ).map_values(|it: (nat, Seq<char>, nat)| hit_for(db, i, chest, it)),
    decreases n,
{
    let p = answers_query(db, i, q);
    let f = |it: (nat, Seq<char>, nat)| hit_for(db, i, chest, it);
    if n == 0 {
        reveal(Seq::filter);
        assert(items.take(0).filter(p) =~= Seq::<(nat, Seq<char>, nat)>::empty());
        assert(items.take(0).filter(p).map_values(f) =~= Seq::<HitView>::empty());
    } else {
        let k = (n - 1) as nat;
        lemma_item_hits_are_matches(db, i, items, chest, q, k);
        let it = items[k as int];
        assert(items.take(n as int) =~= items.take(k as int).push(it));
        items.take(k as int).lemma_filter_push(it, p);
        let prev = items.take(k as int).filter(p);
        if p(it) {
            assert(prev.push(it).map_values(f) =~= prev.map_values(f).push(f(it)));
        }
    }
}

/// The hits in the first `n` chests, chest by chest; `None` where a chest's
/// items cannot be read.
#[verifier::opaque]
pub open spec fn chest_hits(
    db: PalDb,
    i: I18n,
    s: Seq<u8>,
    chests: Seq<ChestView>,
    q: Seq<char>,
    n: nat,
) -> Option<Seq<HitView>>
    decreases n,
{
    if n == 0 {
        Some(Seq::empty())
    } else {
        let k = (n - 1) as nat;
        match chest_hits(db, i, s, chests, q, k) {
            None => None,
            Some(rest) => match container_items(s, chests[k as int].0) {
                None => None,
                Some(items) => Some(
                    rest + item_hits(db, i, items, chests[k as int], q, items.len()),
                ),
            },
        }
    }
}

/// The hits that one chest gives for a query: each of its items that answers the query
/// (see `answers_query`), in slot order; none when its items cannot be read.
pub open spec fn chest_matches(db: PalDb, i: I18n, s: Seq<u8>, chest: ChestView, q: Seq<char>) -> Seq<HitView> {
    match container_items(s, chest.0) {
        Some(items) => items.filter(answers_query(db, i, q)).map_values(
            |it: (nat, Seq<char>, nat)| hit_for(db, i, chest, it),
        ),
        None => Seq::empty(),
    }
}

/// The search over the first `n` chests succeeds exactly when every one of their item
/// lists can be read, and then lists, chest after chest, exactly the items of each that
/// answer the query.
pub proof fn lemma_chest_hits_are_matches(
    db: PalDb,
    i: I18n,
    s: Seq<u8>,
    chests: Seq<ChestView>,
    q: Seq<char>,
    n: nat,
)
    requires
        n <= chests.len(),
    ensures
        chest_hits(db, i, s, chests, q, n) is Some <==> forall|k: int|
            0 <= k < n ==> (#[trigger] container_items(s, chests[k].0)) is Some,
        chest_hits(db, i, s, chests, q, n) matches Some(h) ==> h == Seq::new(
            n,
            |k: int| chest_matches(db, i, s, chests[k], q),
        ).flatten(),
    decreases n,
{
    reveal(chest_hits);
    let all = Seq::new(n, |k: int| chest_matches(db, i, s, chests[k], q));
    if n == 0 {
        assert(all =~= Seq::<Seq<HitView>>::empty());
    } else {
        let k = (n - 1) as nat;
        lemma_chest_hits_are_matches(db, i, s, chests, q, k);
        let prev = Seq::new(k, |j: int| chest_matches(db, i, s, chests[j], q));
        assert(all =~= prev.push(chest_matches(db, i, s, chests[k as int], q)));
        prev.lemma_flatten_push(chest_matches(db, i, s, chests[k as int], q));
        if let Some(items) = container_items(s, chests[k as int].0) {
            lemma_item_hits_are_matches(db, i, items, chests[k as int], q, items.len());
            assert(items.take(items.len() as int) =~= items);
        }
        if chest_hits(db, i, s, chests, q, k) is Some && container_items(s, chests[k as int].0) is None {
            assert(!(forall|j: int| 0 <= j < n ==> (#[trigger] container_items(s, chests[j].0)) is Some));
        }
    }
}

/// The chest search over a world's level data for a query (compared in lowercase):
/// every item of every storage chest whose id or translated name contains it, with the
/// chest it lies in; `None` where the bytes are malformed.
pub open spec fn search_hits(db: PalDb, i: I18n, s: Seq<u8>, query: Seq<char>) -> Option<Seq<HitView>> {
    match chests_from(s, 0) {
        None => None,
        Some(cs) => chest_hits(db, i, s, cs, lowercase(query), cs.len()),
    }
}

/// The chest search answers with the hits of every storage chest the container scan
/// lists, chest after chest, each chest giving exactly its items whose lowercase id or
/// lowercase translated name contains the lowercase query; it fails exactly where the
/// scan or one of the chests' item lists cannot be read.
pub proof fn lemma_search_hits_are_matches(db: PalDb, i: I18n, s: Seq<u8>, query: Seq<char>)
    ensures
        search_hits(db, i, s, query) is Some <==> (chests_from(s, 0) matches Some(cs) && forall|k: int|
            0 <= k < cs.len() ==> (#[trigger] container_items(s, cs[k].0)) is Some),
        search_hits(db, i, s, query) matches Some(h) ==> h == Seq::new(
            chests_from(s, 0)->0.len(),
            |k: int| chest_matches(db, i, s, chests_from(s, 0)->0[k], lowercase(query)),
        ).flatten(),
{
    if let Some(cs) = chests_from(s, 0) {
        lemma_chest_hits_are_matches(db, i, s, cs, lowercase(query), cs.len());
    }
}

/// One chest search hit; the position is given as bit patterns of three `f64`.
#[derive(Debug, Clone)]
pub struct ChestHit {
    pub item_id: String,
    pub item_name: String,
    pub count: u32,
    pub container_guid: [u8; 16],
    pub chest_type: String,
    pub x: u64,
    pub y: u64,
    pub z: u64,
}

/// The view of a hit.
pub open spec fn hit_view(h: ChestHit) -> HitView {
    (
        h.item_id@,
        h.item_name@,
        h.count as nat,
        h.container_guid@,
        h.chest_type@,
        (h.x as nat, h.y as nat, h.z as nat),
    )
}

/// Views of hits.
pub open spec fn hits_view(v: Seq<ChestHit>) -> Seq<HitView> {
    v.map_values(|h: ChestHit| hit_view(h))
}

proof fn lemma_chest_hits_none_stays(
    db: PalDb,
    i: I18n,
    s: Seq<u8>,
    chests: Seq<ChestView>,
    q: Seq<char>,
    k: nat,
    n: nat,
)
    requires
        k <= n,
        chest_hits(db, i, s, chests, q, k) is None,
    ensures
        chest_hits(db, i, s, chests, q, n) is None,
    decreases n - k,
{
    reveal(chest_hits);
    if k < n {
        lemma_chest_hits_none_stays(db, i, s, chests, q, k, (n - 1) as nat);
    }
}

proof fn lemma_chest_hits_step(db: PalDb, i: I18n, s: Seq<u8>, chests: Seq<ChestView>, q: Seq<char>, k: nat)
    ensures
        chest_hits(db, i, s, chests, q, 0) == Some(Seq::<HitView>::empty()),
        chest_hits(db, i, s, chests, q, k + 1) == match chest_hits(db, i, s, chests, q, k) {
            None => None,
            Some(rest) => match container_items(s, chests[k as int].0) {
                None => None,
                Some(items) => Some(
                    rest + item_hits(db, i, items, chests[k as int], q, items.len()),
                ),
            },
        },
{
    reveal(chest_hits);
}

fn push_item_hits(
    db: &PalDb,
    i: &I18n,
    items: &Vec<crate::level::InventoryItem>,
    guid: [u8; 16],
    chest_type: &String,
    coords: (u64, u64, u64),
    q: &String,
    out: &mut Vec<ChestHit>,
)
    ensures
        hits_view(final(out)@) == hits_view(old(out)@) + item_hits(
            *db,
            *i,
            items_view(items@),
            (guid@, chest_type@, (coords.0 as nat, coords.1 as nat, coords.2 as nat)),
            q@,
            items@.len(),
        ),
{
    let ghost iv = items_view(items@);
    let ghost chest = (guid@, chest_type@, (coords.0 as nat, coords.1 as nat, coords.2 as nat));
    let (cx, cy, cz) = coords;
    let mut j: usize = 0;
    while j < items.len()
        invariant
            j <= items@.len(),
            iv == items_view(items@),
            iv.len() == items@.len(),
            chest == (guid@, chest_type@, (cx as nat, cy as nat, cz as nat)),
            hits_view(out@) == hits_view(old(out)@) + item_hits(*db, *i, iv, chest, q@, j as nat),
        decreases items@.len() - j,
    {
        let name = i.t(db, items[j].item_id.as_str());
        if item_matches_query(items[j].item_id.as_str(), name.as_str(), q.as_str()) {
            let ghost before = out@;
            let hit = ChestHit {
                item_id: crate::db::owned(items[j].item_id.as_str()),
                item_name: name,
                count: items[j].count,
                container_guid: guid,
                chest_type: crate::db::owned(chest_type.as_str()),
                x: cx,
                y: cy,
                z: cz,
            };
            out.push(hit);
            proof {
                assert(hits_view(out@) =~= hits_view(before).push(hit_view(hit)));
            }
        }
        j = j + 1;
    }
}

/// The chest search (see `search_hits`).
pub fn search_chests(db: &PalDb, i: &I18n, level_bytes: &[u8], query: &str) -> (r: Option<Vec<ChestHit>>)
    requires
        level_bytes@.len() <= isize::MAX,
    ensures
        search_hits(*db, *i, level_bytes@, query@) is None ==> r is None,
        search_hits(*db, *i, level_bytes@, query@) matches Some(v) ==> r matches Some(rv)
            && hits_view(rv@) == v,
{
    let q = to_lowercase(query);
    let chests = match try_find_chest_containers(level_bytes) {
        None => return None,
        Some(c) => c,
    };
    let ghost cs = chests_view(chests@);
    let mut out: Vec<ChestHit> = Vec::new();
    assert(hits_view(out@) =~= Seq::<HitView>::empty());
    proof {
        lemma_chest_hits_step(*db, *i, level_bytes@, cs, q@, 0);
    }
    let mut k: usize = 0;
    while k < chests.len()
        invariant
            k <= chests@.len(),
            level_bytes@.len() <= isize::MAX,
            cs == chests_view(chests@),
            cs.len() == chests@.len(),
            chests_from(level_bytes@, 0) == Some(cs),
            q@ == lowercase(query@),
            chest_hits(*db, *i, level_bytes@, cs, q@, k as nat) == Some(hits_view(out@)),
        decreases chests@.len() - k,
    {
        let guid = chests[k].0;
        proof {
            lemma_chest_hits_step(*db, *i, level_bytes@, cs, q@, k as nat);
        }
        assert(cs[k as int] == chest_view(chests@[k as int]));
        assert(cs[k as int].0 == guid@);
        let items = match try_parse_container_items(level_bytes, &guid) {
            None => {
                proof {
                    lemma_chest_hits_none_stays(
                        *db,
                        *i,
                        level_bytes@,
                        cs,
                        q@,
                        (k + 1) as nat,
                        cs.len(),
                    );
                }
                return None;
            },
            Some(v) => v,
        };
        push_item_hits(db, i, &items, guid, &chests[k].1, chests[k].2, &q, &mut out);
        k = k + 1;
    }
    Some(out)
}

/// The pal id of a record the monitor and analyzer report on: not a player character,
/// owned by `target` when one is given, with an id that is neither empty nor
/// `Desconocido`; `Some(None)` for any other record. `None` where the bytes are
/// malformed.
pub open spec fn kept_pal_id(raw: Seq<u8>, target: Option<Seq<char>>) -> Option<Option<Seq<char>>> {
    match bool_prop(raw, "IsPlayer\0".spec_bytes()) {
        None => None,
        Some(true) => Some(None),
        Some(false) => if raw.len() < "OwnerPlayerUId\0".spec_bytes().len() {
            None
        } else if target matches Some(u) && owner_of(raw) != u {
            Some(None)
        } else {
            match string_prop(raw, "CharacterID\0".spec_bytes()) {
                None => None,
                Some(cid) => if cid.len() == 0 || cid == "Desconocido"@ {
                    Some(None)
                } else {
                    Some(Some(cid))
                },
            }
        },
    }
}

fn try_kept_pal_id(raw: &[u8], target: Option<&str>) -> (r: Option<Option<String>>)
    requires
        raw@.len() <= isize::MAX,
    ensures
        kept_pal_id(
            raw@,
            match target {
                Some(u) => Some(u@),
                None => None,
            },
        ) is None ==> r is None,
        kept_pal_id(
            raw@,
            match target {
                Some(u) => Some(u@),
                None => None,
            },
        ) matches Some(k) ==> r matches Some(rk) && match k {
            Some(c) => rk matches Some(t) && t@ == c,
            None => rk is None,
        },
{
    let is_player = match try_extract_bool_prop(raw, "IsPlayer\0".as_bytes()) {
        None => return None,
        Some(b) => b,
    };
    if is_player {
        return Some(None);
    }
    let owner_pat = "OwnerPlayerUId\0".as_bytes();
    if raw.len() < owner_pat.len() {
        return None;
    }
    let owner = match extract_guid_bytes_prop(raw, owner_pat) {
        Some(g) => crate::guid::format_guid(&g),
        None => String::new(),
    };
    if let Some(u) = target {
        if !text_eq(owner.as_str(), u) {
            return Some(None);
        }
    }
    let cid = match try_extract_string_prop(raw, "CharacterID\0".as_bytes()) {
        None => return None,
        Some(c) => c,
    };
    if cid.as_str().is_empty() || text_eq(cid.as_str(), "Desconocido") {
        return Some(None);
    }
    Some(Some(cid))
}

/// An optional float property: its `f32` bit pattern when the record has it, `None`
/// when it does not (the monitor then assumes 100). Outer `None` where the
/// bytes are malformed.
pub open spec fn optional_float(raw: Seq<u8>, name: Seq<u8>) -> Option<Option<nat>> {
    if raw.len() < name.len() {
        None
    } else if prop_pos(raw, name) is Some {
        match float_prop(raw, name) {
            None => None,
            Some(v) => Some(Some(v)),
        }
    } else {
        Some(None)
    }
}

/// What the monitor reads of a pal: id, health and maximum health (in thousandths), and
/// sanity and fullness (`f32` bit patterns, `None` when absent).
pub type MonitorView = (Seq<char>, int, int, Option<nat>, Option<nat>);

/// The monitor's reading of one character record (filtered as in `kept_pal_id`).
pub open spec fn monitor_reading(raw: Seq<u8>, target: Option<Seq<char>>) -> Option<Option<MonitorView>> {
    match kept_pal_id(raw, target) {
        None => None,
        Some(None) => Some(None),
        Some(Some(cid)) => match (
            fixed_point_prop(raw, "Hp\0".spec_bytes()),
            fixed_point_prop(raw, "MaxHp\0".spec_bytes()),
            optional_float(raw, "SanityValue\0".spec_bytes()),
            optional_float(raw, "FullStomach\0".spec_bytes()),
        ) {
            (Some(h), Some(mh), Some(san), Some(sat)) => Some(Some((cid, h, mh, san, sat))),
            _ => None,
        },
    }
}

/// What the monitor reads of a pal.
#[derive(Debug, Clone)]
pub struct MonitorReading {
    pub pal_id: String,
    pub hp: i64,
    pub max_hp: i64,
    pub sanity_bits: Option<u32>,
    pub satiety_bits: Option<u32>,
}

/// The view of an optional bit pattern.
pub open spec fn opt_bits(b: Option<u32>) -> Option<nat> {
    match b {
        Some(x) => Some(x as nat),
        None => None,
    }
}

/// The view of a monitor reading.
pub open spec fn reading_view(m: MonitorReading) -> MonitorView {
    (m.pal_id@, m.hp as int, m.max_hp as int, opt_bits(m.sanity_bits), opt_bits(m.satiety_bits))
}

fn try_optional_float(raw: &[u8], name: &[u8]) -> (r: Option<Option<u32>>)
    requires
        raw@.len() <= isize::MAX,
    ensures
        optional_float(raw@, name@) is None ==> r is None,
        optional_float(raw@, name@) matches Some(v) ==> r matches Some(rv) && opt_bits(rv) == v,
{
    if raw.len() < name.len() {
        return None;
    }
    if has_prop(raw, name) {
        match try_extract_float_prop(raw, name) {
            None => None,
            Some(v) => Some(Some(v)),
        }
    } else {
        Some(None)
    }
}

/// The monitor's reading of one character record (see `monitor_reading`).
pub fn read_monitor(raw: &[u8], target: Option<&str>) -> (r: Option<Option<MonitorReading>>)
    requires
        raw@.len() <= isize::MAX,
    ensures
        monitor_reading(
            raw@,
            match target {
                Some(u) => Some(u@),
                None => None,
            },
        ) is None ==> r is None,
        monitor_reading(
            raw@,
            match target {
                Some(u) => Some(u@),
                None => None,
            },
        ) matches Some(None) ==> r matches Some(None),
        monitor_reading(
            raw@,
            match target {
                Some(u) => Some(u@),
                None => None,
            },
        ) matches Some(Some(v)) ==> r matches Some(Some(m)) && reading_view(m) == v,
{
    let cid = match try_kept_pal_id(raw, target) {
        None => return None,
        Some(None) => return Some(None),
        Some(Some(c)) => c,
    };
    let hp = try_extract_fixed_point_prop(raw, "Hp\0".as_bytes());
    let mh = try_extract_fixed_point_prop(raw, "MaxHp\0".as_bytes());
    let san = try_optional_float(raw, "SanityValue\0".as_bytes());
    let sat = try_optional_float(raw, "FullStomach\0".as_bytes());
    match (hp, mh, san, sat) {
        (Some(h), Some(m), Some(a), Some(b)) => Some(
            Some(MonitorReading { pal_id: cid, hp: h, max_hp: m, sanity_bits: a, satiety_bits: b }),
        ),
        _ => None,
    }
}

/// A pal's condition as the monitor reports it.
#[derive(Clone, Copy, PartialEq, Eq, Structural, Debug)]
pub enum PalStatus {
    Excellent,
    Stressed,
    VeryStressed,
    NeedsFood,
    CriticallyHungry,
    GravelyInjured,
}

/// The condition for the monitor's comparisons: health below 30 percent outweighs
/// hunger (fullness below 40, else below 70), which outweighs stress (sanity below 50,
/// else below 70).
pub open spec fn status_for(sanity_below_50: bool, sanity_below_70: bool, satiety_below_40: bool, satiety_below_70: bool, hp_percent: nat) -> PalStatus {
    if hp_percent < 30 {
        PalStatus::GravelyInjured
    } else if satiety_below_40 {
        PalStatus::CriticallyHungry
    } else if satiety_below_70 {
        PalStatus::NeedsFood
    } else if sanity_below_50 {
        PalStatus::VeryStressed
    } else if sanity_below_70 {
        PalStatus::Stressed
    } else {
        PalStatus::Excellent
    }
}

/// Priorities of the monitor's condition: health below 30 percent is reported whatever
/// else holds; otherwise hunger is reported whatever the sanity (critical below 40
/// fullness, else needing food below 70); stress is reported only for a healthy, fed
/// pal (very stressed below 50 sanity, else stressed below 70); and a pal with none of
/// these is excellent.
pub proof fn lemma_status_priorities(s50: bool, s70: bool, f40: bool, f70: bool, hp: nat)
    ensures
        hp < 30 ==> status_for(s50, s70, f40, f70, hp) == PalStatus::GravelyInjured,
        hp >= 30 && f40 ==> status_for(s50, s70, f40, f70, hp) == PalStatus::CriticallyHungry,
        hp >= 30 && !f40 && f70 ==> status_for(s50, s70, f40, f70, hp) == PalStatus::NeedsFood,
        hp >= 30 && !f40 && !f70 && s50 ==> status_for(s50, s70, f40, f70, hp)
            == PalStatus::VeryStressed,
        hp >= 30 && !f40 && !f70 && !s50 && s70 ==> status_for(s50, s70, f40, f70, hp)
            == PalStatus::Stressed,
        hp >= 30 && !f40 && !f70 && !s50 && !s70 ==> status_for(s50, s70, f40, f70, hp)
            == PalStatus::Excellent,
{
}

/// A pal's condition from the monitor's comparisons (see `status_for`).
pub fn pal_status(sanity_below_50: bool, sanity_below_70: bool, satiety_below_40: bool, satiety_below_70: bool, hp_percent: u32) -> (r: PalStatus)
    ensures
        r == status_for(sanity_below_50, sanity_below_70, satiety_below_40, satiety_below_70, hp_percent as nat),
        hp_percent < 30 ==> r == PalStatus::GravelyInjured,
        hp_percent >= 30 && satiety_below_40 ==> r == PalStatus::CriticallyHungry,
        hp_percent >= 30 && !satiety_below_40 && satiety_below_70 ==> r == PalStatus::NeedsFood,
{
    let mut status = PalStatus::Excellent;
    if sanity_below_50 {
        status = PalStatus::VeryStressed;
    } else if sanity_below_70 {
        status = PalStatus::Stressed;
    }
    if satiety_below_40 {
        status = PalStatus::CriticallyHungry;
    } else if satiety_below_70 {
        status = PalStatus::NeedsFood;
    }
    if hp_percent < 30 {
        status = PalStatus::GravelyInjured;
    }
    status
}

/// The locale key of a condition.
pub open spec fn status_key_of(s: PalStatus) -> Seq<char> {
    match s {
        PalStatus::Excellent => "status_excellent"@,
        PalStatus::Stressed => "status_stressed"@,
        PalStatus::VeryStressed => "status_very_stressed"@,
        PalStatus::NeedsFood => "status_needs_food"@,
        PalStatus::CriticallyHungry => "status_critically_hungry"@,
        PalStatus::GravelyInjured => "status_gravely_injured"@,
    }
}

/// The locale key of a condition (see `status_key_of`).
pub fn status_key(s: PalStatus) -> (r: &'static str)
    ensures
        r@ == status_key_of(s),
{
    match s {
        PalStatus::Excellent => "status_excellent",
        PalStatus::Stressed => "status_stressed",
        PalStatus::VeryStressed => "status_very_stressed",
        PalStatus::NeedsFood => "status_needs_food",
        PalStatus::CriticallyHungry => "status_critically_hungry",
        PalStatus::GravelyInjured => "status_gravely_injured",
    }
}

} // verus!
