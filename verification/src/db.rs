//! The game metadata tables (pals, passive skills, items, breeding exceptions, active
//! skills, recipes and drops) and the lookups made on them: translations, breeding power,
//! breeding outcomes and parents, drops and recipes.
//!
//! The tables are held as rows in table order; a lookup that the database answers with
//! its first matching row is answered here with the first matching row. An empty
//! database answers every lookup as an unavailable one does.
use vstd::prelude::*;
use vstd::utf8::encode_utf8;
use crate::text::{chars_of, push_char, text_eq};

verus! {

/// A row of the `pals` table. `work` holds the twelve work suitabilities in column order:
/// kindling, watering, planting, generating, handwork, gathering, lumbering, mining,
/// medicine, cooling, transporting, farming.
#[derive(Debug, Clone)]
pub struct PalRow {
    pub internal_id: String,
    pub name_en: String,
    pub name_es: String,
    pub breed_power: i32,
    pub work: [i32; 12],
}

/// A row of the `passives` table.
#[derive(Debug, Clone)]
pub struct PassiveRow {
    pub internal_id: String,
    pub name_en: String,
    pub name_es: String,
    pub description_en: String,
    pub description_es: String,
}

/// A row of the `items` table.
#[derive(Debug, Clone)]
pub struct ItemRow {
    pub internal_id: String,
    pub name_en: String,
    pub name_es: String,
}

/// A row of the `breeding_exceptions` table.
#[derive(Debug, Clone)]
pub struct ExceptionRow {
    pub parent_a: String,
    pub parent_b: String,
    pub child: String,
}

/// A row of the `active_skills` table.
#[derive(Debug, Clone)]
pub struct SkillRow {
    pub internal_id: String,
    pub name_en: String,
    pub name_es: String,
    pub power: i32,
    pub cooldown: i32,
    pub element: String,
}

/// A row of the `recipes` table.
#[derive(Debug, Clone)]
pub struct RecipeRow {
    pub item_id: String,
    pub ingredient_id: String,
    pub count: i32,
}

/// A row of the `pal_drops` table.
#[derive(Debug, Clone)]
pub struct DropRow {
    pub pal_id: String,
    pub item_id: String,
    pub chance: i32,
    pub min_qty: i32,
    pub max_qty: i32,
}

/// The metadata database, table by table.
#[derive(Debug, Clone)]
pub struct PalDb {
    pub pals: Vec<PalRow>,
    pub passives: Vec<PassiveRow>,
    pub items: Vec<ItemRow>,
    pub exceptions: Vec<ExceptionRow>,
    pub skills: Vec<SkillRow>,
    pub recipes: Vec<RecipeRow>,
    pub drops: Vec<DropRow>,
}

/// The first index from `i` on whose element satisfies `p`.
pub open spec fn first_from<T>(s: Seq<T>, p: spec_fn(T) -> bool, i: int) -> Option<int>
    decreases s.len() - i,
{
    if i < 0 || i >= s.len() {
        None
    } else if p(s[i]) {
        Some(i)
    } else {
        first_from(s, p, i + 1)
    }
}

/// The first element satisfying `p`, if any.
pub open spec fn first_where<T>(s: Seq<T>, p: spec_fn(T) -> bool) -> Option<int> {
    first_from(s, p, 0)
}

/// Rows whose internal id is `id`.
pub open spec fn pal_id_is(id: Seq<char>) -> spec_fn(PalRow) -> bool {
    |r: PalRow| r.internal_id@ == id
}

/// Rows whose internal id, English name or Spanish name is `name`.
pub open spec fn pal_name_is(name: Seq<char>) -> spec_fn(PalRow) -> bool {
    |r: PalRow| r.internal_id@ == name || r.name_en@ == name || r.name_es@ == name
}

/// Passive skill rows whose id is `id`.
pub open spec fn passive_id_is(id: Seq<char>) -> spec_fn(PassiveRow) -> bool {
    |r: PassiveRow| r.internal_id@ == id
}

/// Item rows whose id is `id`.
pub open spec fn item_id_is(id: Seq<char>) -> spec_fn(ItemRow) -> bool {
    |r: ItemRow| r.internal_id@ == id
}

/// Item rows whose id, English name or Spanish name is `name`.
pub open spec fn item_name_is(name: Seq<char>) -> spec_fn(ItemRow) -> bool {
    |r: ItemRow| r.internal_id@ == name || r.name_en@ == name || r.name_es@ == name
}

/// Active skill rows whose id is `id`.
pub open spec fn skill_id_is(id: Seq<char>) -> spec_fn(SkillRow) -> bool {
    |r: SkillRow| r.internal_id@ == id
}

/// Exception rows for the parents `a` and `b`, in either order.
pub open spec fn exception_pair(a: Seq<char>, b: Seq<char>) -> spec_fn(ExceptionRow) -> bool {
    |r: ExceptionRow| (r.parent_a@ == a && r.parent_b@ == b) || (r.parent_a@ == b && r.parent_b@ == a)
}

pub proof fn lemma_first_from_found<T>(s: Seq<T>, p: spec_fn(T) -> bool, i: int)
    ensures
        first_from(s, p, i) matches Some(k) ==> i <= k < s.len() && 0 <= k && p(s[k]),
    decreases s.len() - i,
{
    if 0 <= i < s.len() && !p(s[i]) {
        lemma_first_from_found(s, p, i + 1);
    }
}

/// The pal row with this internal id.
pub open spec fn pal_by_id(pals: Seq<PalRow>, id: Seq<char>) -> Option<int> {
    first_where(pals, pal_id_is(id))
}

/// The pal row whose internal id, English name or Spanish name is `name`.
pub open spec fn pal_by_name(pals: Seq<PalRow>, name: Seq<char>) -> Option<int> {
    first_where(
        pals,
        pal_name_is(name),
    )
}

/// The prefix that marks an alpha (boss) variant of a pal.
pub open spec fn boss_prefix() -> Seq<char> {
    seq!['B', 'O', 'S', 'S', '_']
}

/// The id without the boss prefix, if it has one.
pub open spec fn strip_boss(id: Seq<char>) -> Option<Seq<char>> {
    if id.len() >= 5 && id.take(5) == boss_prefix() {
        Some(id.skip(5))
    } else {
        None
    }
}

/// A pal's display name in the chosen language.
pub open spec fn pal_name(r: PalRow, es: bool) -> Seq<char> {
    if es {
        r.name_es@
    } else {
        r.name_en@
    }
}

/// The display name of a pal id: its row's name; for a boss id whose base id has a
/// name, that name followed by ` (Alfa)` / ` (Alpha)`; otherwise the id itself.
pub open spec fn translated_pal(pals: Seq<PalRow>, id: Seq<char>, es: bool) -> Seq<char>
    decreases id.len(),
{
    match pal_by_id(pals, id) {
        Some(i) => pal_name(pals[i], es),
        None => match strip_boss(id) {
            Some(base) => {
                let bn = translated_pal(pals, base, es);
                if bn != base {
                    bn + (if es {
                        " (Alfa)"@
                    } else {
                        " (Alpha)"@
                    })
                } else {
                    id
                }
            },
            None => id,
        },
    }
}

/// Appends a text, character by character.
pub fn append_text(s: &mut String, t: &str)
    ensures
        final(s)@ == old(s)@ + t@,
{
    let cs = chars_of(t);
    let mut i: usize = 0;
    while i < cs.len()
        invariant
            cs@ == t@,
            i <= cs@.len(),
            s@ == old(s)@ + t@.take(i as int),
        decreases cs@.len() - i,
    {
        push_char(s, cs[i]);
        i = i + 1;
        assert(s@ =~= old(s)@ + t@.take(i as int));
    }
    assert(t@.take(i as int) =~= t@);
}

/// A copy of a text as an owned string.
pub fn owned(t: &str) -> (r: String)
    ensures
        r@ == t@,
{
    let mut r = String::new();
    append_text(&mut r, t);
    assert(r@ =~= t@);
    r
}

fn find_pal_by_id(pals: &Vec<PalRow>, id: &str) -> (r: Option<usize>)
    ensures
        crate::wire::opt_pos(r) == pal_by_id(pals@, id@),
{
    let mut i: usize = 0;
    while i < pals.len()
        invariant
            i <= pals@.len(),
            pal_by_id(pals@, id@) == first_from(
                pals@,
                pal_id_is(id@),
                i as int,
            ),
        decreases pals@.len() - i,
    {
        if text_eq(pals[i].internal_id.as_str(), id) {
            return Some(i);
        }
        i = i + 1;
    }
    None
}

fn find_pal_by_name(pals: &Vec<PalRow>, name: &str) -> (r: Option<usize>)
    ensures
        crate::wire::opt_pos(r) == pal_by_name(pals@, name@),
{
    let mut i: usize = 0;
    while i < pals.len()
        invariant
            i <= pals@.len(),
            pal_by_name(pals@, name@) == first_from(
                pals@,
                pal_name_is(name@),
                i as int,
            ),
        decreases pals@.len() - i,
    {
        let r = &pals[i];
        if text_eq(r.internal_id.as_str(), name) || text_eq(r.name_en.as_str(), name) || text_eq(
            r.name_es.as_str(),
            name,
        ) {
            return Some(i);
        }
        i = i + 1;
    }
    None
}

fn find_item_by_name(items: &Vec<ItemRow>, name: &str) -> (r: Option<usize>)
    ensures
        crate::wire::opt_pos(r) == item_by_name(items@, name@),
{
    let mut i: usize = 0;
    while i < items.len()
        invariant
            i <= items@.len(),
            item_by_name(items@, name@) == first_from(
                items@,
                item_name_is(name@),
                i as int,
            ),
        decreases items@.len() - i,
    {
        let r = &items[i];
        if text_eq(r.internal_id.as_str(), name) || text_eq(r.name_en.as_str(), name) || text_eq(
            r.name_es.as_str(),
            name,
        ) {
            return Some(i);
        }
        i = i + 1;
    }
    None
}

/// The id without its boss prefix, if it starts with one.
pub fn strip_boss_prefix(id: &str) -> (r: Option<String>)
    ensures
        strip_boss(id@) is None ==> r is None,
        strip_boss(id@) matches Some(b) ==> r matches Some(rb) && rb@ == b,
{
    let cs = chars_of(id);
    if cs.len() >= 5 && cs[0] == 'B' && cs[1] == 'O' && cs[2] == 'S' && cs[3] == 'S' && cs[4]
        == '_' {
        assert(id@.take(5) =~= boss_prefix());
        let mut out = String::new();
        let mut i: usize = 5;
        while i < cs.len()
            invariant
                cs@ == id@,
                5 <= i <= cs@.len(),
                out@ =~= id@.subrange(5, i as int),
            decreases cs@.len() - i,
        {
            push_char(&mut out, cs[i]);
            i = i + 1;
        }
        Some(out)
    } else {
        proof {
            if id@.len() >= 5 && id@.take(5) == boss_prefix() {
                assert(id@.take(5)[0] == 'B');
                assert(id@.take(5)[1] == 'O');
                assert(id@.take(5)[2] == 'S');
                assert(id@.take(5)[3] == 'S');
                assert(id@.take(5)[4] == '_');
            }
        }
        None
    }
}

impl PalDb {
    /// The display name of a pal id in the chosen language (see `translated_pal`).
    pub fn translate_pal(&self, internal_id: &str, use_es: bool) -> (r: String)
        ensures
            r@ == translated_pal(self.pals@, internal_id@, use_es),
        decreases internal_id@.len(),
    {
        match find_pal_by_id(&self.pals, internal_id) {
            Some(i) => {
                proof {
                    lemma_first_from_found(self.pals@, pal_id_is(internal_id@), 0);
                }
                if use_es {
                    owned(self.pals[i].name_es.as_str())
                } else {
                    owned(self.pals[i].name_en.as_str())
                }
            },
            None => match strip_boss_prefix(internal_id) {
                Some(base) => {
                    let mut bn = self.translate_pal(base.as_str(), use_es);
                    if !text_eq(bn.as_str(), base.as_str()) {
                        if use_es {
                            append_text(&mut bn, " (Alfa)");
                        } else {
                            append_text(&mut bn, " (Alpha)");
                        }
                        bn
                    } else {
                        owned(internal_id)
                    }
                },
                None => owned(internal_id),
            },
        }
    }
}

/// The description of the database tables offered to assistants, in Spanish or English.
pub open spec fn schema_summary(use_es: bool) -> Seq<char> {
    if use_es {
        "Base de datos SQLite local (palworld_data.db):\n\
         Tablas estáticas:\n\
         - pals (pals registrados y su poder de crianza/aptitudes):\n\
           internal_id (TEXT PRIMARY KEY), name_en (TEXT), name_es (TEXT), breed_power (INTEGER), kindling..farming (INTEGER)\n\
         - passives (habilidades pasivas):\n\
           internal_id (TEXT PRIMARY KEY), name_en (TEXT), name_es (TEXT), description_en (TEXT), description_es (TEXT)\n\
         - items (objetos y materiales):\n\
           internal_id (TEXT PRIMARY KEY), name_en (TEXT), name_es (TEXT)\n\
         - breeding_exceptions (excepciones de crianza especiales):\n\
           parent_a (TEXT), parent_b (TEXT), child (TEXT), PRIMARY KEY (parent_a, parent_b)\n\
         - active_skills (habilidades de combate):\n\
           internal_id (TEXT PRIMARY KEY), name_en (TEXT), name_es (TEXT), power (INTEGER), cooldown (INTEGER), element (TEXT)\n\
         - recipes (recetas de crafteo):\n\
           item_id (TEXT), ingredient_id (TEXT), count (INTEGER), PRIMARY KEY (item_id, ingredient_id)\n\
         - pal_drops (objetos que sueltan los Pals):\n\
           pal_id (TEXT), item_id (TEXT), chance (INTEGER), min_qty (INTEGER), max_qty (INTEGER), PRIMARY KEY (pal_id, item_id)\n\n\
         Nota: Toda la información de la partida del usuario (Pals en posesión, coordenadas de cofres, salud de campamentos) se analiza y procesa en caliente en memoria desde el archivo Level.sav directamente, por lo que no reside de forma persistente en SQLite."@
    } else {
        "Local SQLite telemetry DB (palworld_data.db):\n\
         Static Tables:\n\
         - pals (registered Pals, breeding power, and work suitabilities):\n\
           internal_id (TEXT PRIMARY KEY), name_en (TEXT), name_es (TEXT), breed_power (INTEGER), kindling..farming (INTEGER)\n\
         - passives (passive skills):\n\
           internal_id (TEXT PRIMARY KEY), name_en (TEXT), name_es (TEXT), description_en (TEXT), description_es (TEXT)\n\
         - items (in-game items and materials):\n\
           internal_id (TEXT PRIMARY KEY), name_en (TEXT), name_es (TEXT)\n\
         - breeding_exceptions (special unique breeding combos):\n\
           parent_a (TEXT), parent_b (TEXT), child (TEXT), PRIMARY KEY (parent_a, parent_b)\n\
         - active_skills (combat active skills):\n\
           internal_id (TEXT PRIMARY KEY), name_en (TEXT), name_es (TEXT), power (INTEGER), cooldown (INTEGER), element (TEXT)\n\
         - recipes (crafting recipes ingredients):\n\
           item_id (TEXT), ingredient_id (TEXT), count (INTEGER), PRIMARY KEY (item_id, ingredient_id)\n\
         - pal_drops (items dropped by wild Pals):\n\
           pal_id (TEXT), item_id (TEXT), chance (INTEGER), min_qty (INTEGER), max_qty (INTEGER), PRIMARY KEY (pal_id, item_id)\n\n\
         Note: All user live save data (Pals in possession, base coordinates, chest contents) is processed dynamically in memory directly from Level.sav, and is not stored persistently in the SQLite DB."@
    }
}

/// Labels of the work suitabilities, in the column order of `PalRow::work`.
pub open spec fn work_labels() -> Seq<Seq<char>> {
    seq![
        "Kindling"@,
        "Watering"@,
        "Planting"@,
        "Electricity"@,
        "Handwork"@,
        "Gathering"@,
        "Lumbering"@,
        "Mining"@,
        "Medicine"@,
        "Cooling"@,
        "Transporting"@,
        "Farming"@,
    ]
}

fn work_label(k: usize) -> (r: &'static str)
    requires
        k < 12,
    ensures
        r@ == work_labels()[k as int],
{
    if k == 0 {
        "Kindling"
    } else if k == 1 {
        "Watering"
    } else if k == 2 {
        "Planting"
    } else if k == 3 {
        "Electricity"
    } else if k == 4 {
        "Handwork"
    } else if k == 5 {
        "Gathering"
    } else if k == 6 {
        "Lumbering"
    } else if k == 7 {
        "Mining"
    } else if k == 8 {
        "Medicine"
    } else if k == 9 {
        "Cooling"
    } else if k == 10 {
        "Transporting"
    } else {
        "Farming"
    }
}

/// The positive suitabilities among the first `n` columns, labelled, in column order.
pub open spec fn positive_work(w: Seq<i32>, n: nat) -> Seq<(Seq<char>, int)>
    decreases n,
{
    if n == 0 {
        Seq::empty()
    } else {
        let k = (n - 1) as nat;
        let rest = positive_work(w, k);
        if w[k as int] > 0 {
            rest.push((work_labels()[k as int], w[k as int] as int))
        } else {
            rest
        }
    }
}

/// The work suitabilities of a pal: its positive ones, labelled; none for an unknown id.
pub open spec fn suitabilities(pals: Seq<PalRow>, id: Seq<char>) -> Seq<(Seq<char>, int)> {
    match pal_by_id(pals, id) {
        Some(i) => positive_work(pals[i].work@, 12),
        None => Seq::empty(),
    }
}

/// Views of labelled numbers.
pub open spec fn pairs_view(v: Seq<(String, i32)>) -> Seq<(Seq<char>, int)> {
    v.map_values(|e: (String, i32)| (e.0@, e.1 as int))
}

/// The passive skill row with this id.
pub open spec fn passive_by_id(ps: Seq<PassiveRow>, id: Seq<char>) -> Option<int> {
    first_where(ps, passive_id_is(id))
}

/// Name and description of a passive skill in the chosen language; the id and an empty
/// description for an unknown id.
pub open spec fn translated_passive(ps: Seq<PassiveRow>, id: Seq<char>, es: bool) -> (
    Seq<char>,
    Seq<char>,
) {
    match passive_by_id(ps, id) {
        Some(i) => if es {
            (ps[i].name_es@, ps[i].description_es@)
        } else {
            (ps[i].name_en@, ps[i].description_en@)
        },
        None => (id, Seq::empty()),
    }
}

/// The item row with this id.
pub open spec fn item_by_id(items: Seq<ItemRow>, id: Seq<char>) -> Option<int> {
    first_where(items, item_id_is(id))
}

/// The item row whose id, English name or Spanish name is `name`.
pub open spec fn item_by_name(items: Seq<ItemRow>, name: Seq<char>) -> Option<int> {
    first_where(
        items,
        item_name_is(name),
    )
}

/// An item's name in the chosen language; the id itself for an unknown id.
pub open spec fn translated_item(items: Seq<ItemRow>, id: Seq<char>, es: bool) -> Seq<char> {
    match item_by_id(items, id) {
        Some(i) => if es {
            items[i].name_es@
        } else {
            items[i].name_en@
        },
        None => id,
    }
}

/// The exception row for two parents, in either order.
pub open spec fn exception_for(ex: Seq<ExceptionRow>, a: Seq<char>, b: Seq<char>) -> Option<int> {
    first_where(
        ex,
        exception_pair(a, b),
    )
}

/// The active skill row with this id.
pub open spec fn skill_by_id(sk: Seq<SkillRow>, id: Seq<char>) -> Option<int> {
    first_where(sk, skill_id_is(id))
}

/// Ingredients `(ingredient, count)` of the recipe rows for `item` among the first `n`.
pub open spec fn recipe_of(rs: Seq<RecipeRow>, item: Seq<char>, n: nat) -> Seq<(Seq<char>, int)>
    decreases n,
{
    if n == 0 {
        Seq::empty()
    } else {
        let k = (n - 1) as nat;
        let rest = recipe_of(rs, item, k);
        if rs[k as int].item_id@ == item {
            rest.push((rs[k as int].ingredient_id@, rs[k as int].count as int))
        } else {
            rest
        }
    }
}

/// Drops `(item, chance, min, max)` of the pal `pal` among the first `n` drop rows.
pub open spec fn drops_of(ds: Seq<DropRow>, pal: Seq<char>, n: nat) -> Seq<(Seq<char>, int, int, int)>
    decreases n,
{
    if n == 0 {
        Seq::empty()
    } else {
        let k = (n - 1) as nat;
        let rest = drops_of(ds, pal, k);
        let d = ds[k as int];
        if d.pal_id@ == pal {
            rest.push((d.item_id@, d.chance as int, d.min_qty as int, d.max_qty as int))
        } else {
            rest
        }
    }
}

/// Pals dropping `item` among the first `n` drop rows.
pub open spec fn droppers_of(ds: Seq<DropRow>, item: Seq<char>, n: nat) -> Seq<Seq<char>>
    decreases n,
{
    if n == 0 {
        Seq::empty()
    } else {
        let k = (n - 1) as nat;
        let rest = droppers_of(ds, item, k);
        if ds[k as int].item_id@ == item {
            rest.push(ds[k as int].pal_id@)
        } else {
            rest
        }
    }
}

/// Views of drop tuples.
pub open spec fn drops_view(v: Seq<(String, i32, i32, i32)>) -> Seq<(Seq<char>, int, int, int)> {
    v.map_values(|e: (String, i32, i32, i32)| (e.0@, e.1 as int, e.2 as int, e.3 as int))
}

/// Text views of a list of strings.
pub open spec fn texts(v: Seq<String>) -> Seq<Seq<char>> {
    v.map_values(|x: String| x@)
}

/// Breeding power of the pal row with this id, 1500 for an unknown id.
pub open spec fn breed_power_of_id(pals: Seq<PalRow>, id: Seq<char>) -> int {
    match pal_by_id(pals, id) {
        Some(i) => pals[i].breed_power as int,
        None => 1500,
    }
}

/// Breeding power of the pal row matched by id or name, 1500 when none matches.
pub open spec fn breed_power_of_name(pals: Seq<PalRow>, name: Seq<char>) -> int {
    match pal_by_name(pals, name) {
        Some(i) => pals[i].breed_power as int,
        None => 1500,
    }
}

/// Whether a pal (or, for a boss id, its base pal) is known by id or name.
pub open spec fn valid_pal(pals: Seq<PalRow>, id: Seq<char>) -> bool {
    let base = match strip_boss(id) {
        Some(b) => b,
        None => id,
    };
    pal_by_name(pals, base) is Some
}

impl PalDb {
    /// Name and description of a passive skill (see `translated_passive`).
    pub fn translate_passive(&self, internal_id: &str, use_es: bool) -> (r: (String, String))
        ensures
            (r.0@, r.1@) == translated_passive(self.passives@, internal_id@, use_es),
    {
        let mut i: usize = 0;
        while i < self.passives.len()
            invariant
                i <= self.passives@.len(),
                passive_by_id(self.passives@, internal_id@) == first_from(
                    self.passives@,
                    passive_id_is(internal_id@),
                    i as int,
                ),
            decreases self.passives@.len() - i,
        {
            let p = &self.passives[i];
            if text_eq(p.internal_id.as_str(), internal_id) {
                if use_es {
                    return (owned(p.name_es.as_str()), owned(p.description_es.as_str()));
                } else {
                    return (owned(p.name_en.as_str()), owned(p.description_en.as_str()));
                }
            }
            i = i + 1;
        }
        (owned(internal_id), String::new())
    }

    /// An item's name (see `translated_item`).
    pub fn translate_item(&self, internal_id: &str, use_es: bool) -> (r: String)
        ensures
            r@ == translated_item(self.items@, internal_id@, use_es),
    {
        let mut i: usize = 0;
        while i < self.items.len()
            invariant
                i <= self.items@.len(),
                item_by_id(self.items@, internal_id@) == first_from(
                    self.items@,
                    item_id_is(internal_id@),
                    i as int,
                ),
            decreases self.items@.len() - i,
        {
            let it = &self.items[i];
            if text_eq(it.internal_id.as_str(), internal_id) {
                if use_es {
                    return owned(it.name_es.as_str());
                } else {
                    return owned(it.name_en.as_str());
                }
            }
            i = i + 1;
        }
        owned(internal_id)
    }

    /// The positive work suitabilities of a pal, labelled, in column order.
    pub fn get_pal_suitabilities(&self, internal_id: &str) -> (r: Vec<(String, i32)>)
        ensures
            pairs_view(r@) == suitabilities(self.pals@, internal_id@),
    {
        let mut out: Vec<(String, i32)> = Vec::new();
        let i = match find_pal_by_id(&self.pals, internal_id) {
            None => {
                assert(pairs_view(out@) =~= Seq::empty());
                return out;
            },
            Some(i) => i,
        };
        proof {
            lemma_first_from_found(self.pals@, pal_id_is(internal_id@), 0);
        }
        let w = self.pals[i].work;
        let mut k: usize = 0;
        assert(pairs_view(out@) =~= positive_work(w@, 0));
        while k < 12
            invariant
                k <= 12,
                w@.len() == 12,
                pairs_view(out@) == positive_work(w@, k as nat),
            decreases 12 - k,
        {
            if w[k] > 0 {
                let ghost before = out@;
                out.push((owned(work_label(k)), w[k]));
                assert(pairs_view(out@) =~= pairs_view(before).push(
                    (work_labels()[k as int], w@[k as int] as int),
                ));
            }
            k = k + 1;
        }
        out
    }

    /// The child of a special breeding pair, in either order of the parents.
    pub fn check_breeding_exception(&self, parent_a: &str, parent_b: &str) -> (r: Option<String>)
        ensures
            exception_for(self.exceptions@, parent_a@, parent_b@) is None ==> r is None,
            exception_for(self.exceptions@, parent_a@, parent_b@) matches Some(i) ==> r matches Some(
                c,
            ) && c@ == self.exceptions@[i].child@,
    {
        let mut i: usize = 0;
        while i < self.exceptions.len()
            invariant
                i <= self.exceptions@.len(),
                exception_for(self.exceptions@, parent_a@, parent_b@) == first_from(
                    self.exceptions@,
                    exception_pair(parent_a@, parent_b@),
                    i as int,
                ),
            decreases self.exceptions@.len() - i,
        {
            let e = &self.exceptions[i];
            if (text_eq(e.parent_a.as_str(), parent_a) && text_eq(e.parent_b.as_str(), parent_b)) || (
            text_eq(e.parent_a.as_str(), parent_b) && text_eq(e.parent_b.as_str(), parent_a)) {
                return Some(owned(e.child.as_str()));
            }
            i = i + 1;
        }
        None
    }

    /// Breeding power of a pal id, 1500 when unknown.
    pub fn get_pal_breed_power(&self, internal_id: &str) -> (r: i32)
        ensures
            r == breed_power_of_id(self.pals@, internal_id@),
    {
        match find_pal_by_id(&self.pals, internal_id) {
            Some(i) => {
                proof {
                    lemma_first_from_found(self.pals@, pal_id_is(internal_id@), 0);
                }
                self.pals[i].breed_power
            },
            None => 1500,
        }
    }

    /// Name, power, cooldown and element of an active skill, if it is known.
    pub fn translate_active_skill(&self, internal_id: &str, use_es: bool) -> (r: Option<
        (String, i32, i32, String),
    >)
        ensures
            skill_by_id(self.skills@, internal_id@) is None ==> r is None,
            skill_by_id(self.skills@, internal_id@) matches Some(i) ==> r matches Some(
                (n, p, c, e),
            ) && n@ == (if use_es {
                self.skills@[i].name_es@
            } else {
                self.skills@[i].name_en@
            }) && p == self.skills@[i].power && c == self.skills@[i].cooldown && e@
                == self.skills@[i].element@,
    {
        let mut i: usize = 0;
        while i < self.skills.len()
            invariant
                i <= self.skills@.len(),
                skill_by_id(self.skills@, internal_id@) == first_from(
                    self.skills@,
                    skill_id_is(internal_id@),
                    i as int,
                ),
            decreases self.skills@.len() - i,
        {
            let sk = &self.skills[i];
            if text_eq(sk.internal_id.as_str(), internal_id) {
                let name = if use_es {
                    owned(sk.name_es.as_str())
                } else {
                    owned(sk.name_en.as_str())
                };
                return Some((name, sk.power, sk.cooldown, owned(sk.element.as_str())));
            }
            i = i + 1;
        }
        None
    }

    /// Ingredients of the recipe for an item, in table order.
    pub fn get_recipe(&self, item_id: &str) -> (r: Vec<(String, i32)>)
        ensures
            pairs_view(r@) == recipe_of(self.recipes@, item_id@, self.recipes@.len()),
    {
        let mut out: Vec<(String, i32)> = Vec::new();
        let mut k: usize = 0;
        assert(pairs_view(out@) =~= recipe_of(self.recipes@, item_id@, 0));
        while k < self.recipes.len()
            invariant
                k <= self.recipes@.len(),
                pairs_view(out@) == recipe_of(self.recipes@, item_id@, k as nat),
            decreases self.recipes@.len() - k,
        {
            let r = &self.recipes[k];
            if text_eq(r.item_id.as_str(), item_id) {
                let ghost before = out@;
                out.push((owned(r.ingredient_id.as_str()), r.count));
                assert(pairs_view(out@) =~= pairs_view(before).push(
                    (r.ingredient_id@, r.count as int),
                ));
            }
            k = k + 1;
        }
        out
    }

    /// Breeding power of the pal matched by id or name, 1500 when none matches.
    pub fn get_breed_power_by_name(&self, name: &str) -> (r: i32)
        ensures
            r == breed_power_of_name(self.pals@, name@),
    {
        match find_pal_by_name(&self.pals, name) {
            Some(i) => {
                proof {
                    lemma_first_from_found(
                        self.pals@,
                        pal_name_is(name@),
                        0,
                    );
                }
                self.pals[i].breed_power
            },
            None => 1500,
        }
    }

    /// Whether a pal id (a boss id by its base) names a known pal by id or name.
    pub fn is_valid_pal(&self, internal_id: &str) -> (r: bool)
        ensures
            r == valid_pal(self.pals@, internal_id@),
    {
        let found = match strip_boss_prefix(internal_id) {
            Some(base) => find_pal_by_name(&self.pals, base.as_str()),
            None => find_pal_by_name(&self.pals, internal_id),
        };
        found.is_some()
    }

    /// The drops `(item, chance, min, max)` of the pal matched by id or name, in table
    /// order; none when no pal matches.
    pub fn get_pal_drops(&self, pal_name: &str) -> (r: Vec<(String, i32, i32, i32)>)
        ensures
            drops_view(r@) == (match pal_by_name(self.pals@, pal_name@) {
                Some(i) => drops_of(self.drops@, self.pals@[i].internal_id@, self.drops@.len()),
                None => Seq::empty(),
            }),
    {
        let mut out: Vec<(String, i32, i32, i32)> = Vec::new();
        let i = match find_pal_by_name(&self.pals, pal_name) {
            None => {
                assert(drops_view(out@) =~= Seq::empty());
                return out;
            },
            Some(i) => i,
        };
        proof {
            lemma_first_from_found(
                self.pals@,
                pal_name_is(pal_name@),
                0,
            );
        }
        let pal = self.pals[i].internal_id.as_str();
        let mut k: usize = 0;
        assert(drops_view(out@) =~= drops_of(self.drops@, pal@, 0));
        while k < self.drops.len()
            invariant
                k <= self.drops@.len(),
                drops_view(out@) == drops_of(self.drops@, pal@, k as nat),
            decreases self.drops@.len() - k,
        {
            let d = &self.drops[k];
            if text_eq(d.pal_id.as_str(), pal) {
                let ghost before = out@;
                out.push((owned(d.item_id.as_str()), d.chance, d.min_qty, d.max_qty));
                assert(drops_view(out@) =~= drops_view(before).push(
                    (d.item_id@, d.chance as int, d.min_qty as int, d.max_qty as int),
                ));
            }
            k = k + 1;
        }
        out
    }

    /// The pals dropping the item matched by id or name, in table order; none when no
    /// item matches.
    pub fn get_pals_dropping_item(&self, item_name: &str) -> (r: Vec<String>)
        ensures
            texts(r@) == (match item_by_name(self.items@, item_name@) {
                Some(i) => droppers_of(self.drops@, self.items@[i].internal_id@, self.drops@.len()),
                None => Seq::empty(),
            }),
    {
        let mut out: Vec<String> = Vec::new();
        let i = match find_item_by_name(&self.items, item_name) {
            None => {
                assert(texts(out@) =~= Seq::empty());
                return out;
            },
            Some(i) => i,
        };
        proof {
            lemma_first_from_found(
                self.items@,
                item_name_is(item_name@),
                0,
            );
        }
        let item = self.items[i].internal_id.as_str();
        let mut k: usize = 0;
        assert(texts(out@) =~= droppers_of(self.drops@, item@, 0));
        while k < self.drops.len()
            invariant
                k <= self.drops@.len(),
                texts(out@) == droppers_of(self.drops@, item@, k as nat),
            decreases self.drops@.len() - k,
        {
            let d = &self.drops[k];
            if text_eq(d.item_id.as_str(), item) {
                let ghost before = out@;
                out.push(owned(d.pal_id.as_str()));
                assert(texts(out@) =~= texts(before).push(d.pal_id@));
            }
            k = k + 1;
        }
        out
    }
}

/// The description of the database tables (see `schema_summary`).
pub fn get_db_schema_summary(use_es: bool) -> (r: String)
    ensures
        r@ == schema_summary(use_es),
{
    if use_es {
        owned("Base de datos SQLite local (palworld_data.db):\n\
         Tablas estáticas:\n\
         - pals (pals registrados y su poder de crianza/aptitudes):\n\
           internal_id (TEXT PRIMARY KEY), name_en (TEXT), name_es (TEXT), breed_power (INTEGER), kindling..farming (INTEGER)\n\
         - passives (habilidades pasivas):\n\
           internal_id (TEXT PRIMARY KEY), name_en (TEXT), name_es (TEXT), description_en (TEXT), description_es (TEXT)\n\
         - items (objetos y materiales):\n\
           internal_id (TEXT PRIMARY KEY), name_en (TEXT), name_es (TEXT)\n\
         - breeding_exceptions (excepciones de crianza especiales):\n\
           parent_a (TEXT), parent_b (TEXT), child (TEXT), PRIMARY KEY (parent_a, parent_b)\n\
         - active_skills (habilidades de combate):\n\
           internal_id (TEXT PRIMARY KEY), name_en (TEXT), name_es (TEXT), power (INTEGER), cooldown (INTEGER), element (TEXT)\n\
         - recipes (recetas de crafteo):\n\
           item_id (TEXT), ingredient_id (TEXT), count (INTEGER), PRIMARY KEY (item_id, ingredient_id)\n\
         - pal_drops (objetos que sueltan los Pals):\n\
           pal_id (TEXT), item_id (TEXT), chance (INTEGER), min_qty (INTEGER), max_qty (INTEGER), PRIMARY KEY (pal_id, item_id)\n\n\
         Nota: Toda la información de la partida del usuario (Pals en posesión, coordenadas de cofres, salud de campamentos) se analiza y procesa en caliente en memoria desde el archivo Level.sav directamente, por lo que no reside de forma persistente en SQLite.")
    } else {
        owned("Local SQLite telemetry DB (palworld_data.db):\n\
         Static Tables:\n\
         - pals (registered Pals, breeding power, and work suitabilities):\n\
           internal_id (TEXT PRIMARY KEY), name_en (TEXT), name_es (TEXT), breed_power (INTEGER), kindling..farming (INTEGER)\n\
         - passives (passive skills):\n\
           internal_id (TEXT PRIMARY KEY), name_en (TEXT), name_es (TEXT), description_en (TEXT), description_es (TEXT)\n\
         - items (in-game items and materials):\n\
           internal_id (TEXT PRIMARY KEY), name_en (TEXT), name_es (TEXT)\n\
         - breeding_exceptions (special unique breeding combos):\n\
           parent_a (TEXT), parent_b (TEXT), child (TEXT), PRIMARY KEY (parent_a, parent_b)\n\
         - active_skills (combat active skills):\n\
           internal_id (TEXT PRIMARY KEY), name_en (TEXT), name_es (TEXT), power (INTEGER), cooldown (INTEGER), element (TEXT)\n\
         - recipes (crafting recipes ingredients):\n\
           item_id (TEXT), ingredient_id (TEXT), count (INTEGER), PRIMARY KEY (item_id, ingredient_id)\n\
         - pal_drops (items dropped by wild Pals):\n\
           pal_id (TEXT), item_id (TEXT), chance (INTEGER), min_qty (INTEGER), max_qty (INTEGER), PRIMARY KEY (pal_id, item_id)\n\n\
         Note: All user live save data (Pals in possession, base coordinates, chest contents) is processed dynamically in memory directly from Level.sav, and is not stored persistently in the SQLite DB.")
    }
}


/// Whether an id matches the SQL pattern `LIKE 'BOSS_%'`: at least five characters, the
/// first four spelling `boss` in any ASCII case.
pub open spec fn boss_like(id: Seq<char>) -> bool {
    &&& id.len() >= 5
    &&& (id[0] == 'B' || id[0] == 'b')
    &&& (id[1] == 'O' || id[1] == 'o')
    &&& (id[2] == 'S' || id[2] == 's')
    &&& (id[3] == 'S' || id[3] == 's')
}

/// Byte-wise lexicographic order (the database's binary collation): a prefix comes first.
pub open spec fn bytes_le(a: Seq<u8>, b: Seq<u8>) -> bool
    decreases a.len(),
{
    if a.len() == 0 {
        true
    } else if b.len() == 0 {
        false
    } else if a[0] < b[0] {
        true
    } else if a[0] > b[0] {
        false
    } else {
        bytes_le(a.drop_first(), b.drop_first())
    }
}

pub proof fn lemma_bytes_le_total(a: Seq<u8>, b: Seq<u8>)
    ensures
        bytes_le(a, b) || bytes_le(b, a),
    decreases a.len(),
{
    if a.len() > 0 && b.len() > 0 && a[0] == b[0] {
        lemma_bytes_le_total(a.drop_first(), b.drop_first());
    }
}

pub proof fn lemma_bytes_le_trans(a: Seq<u8>, b: Seq<u8>, c: Seq<u8>)
    requires
        bytes_le(a, b),
        bytes_le(b, c),
    ensures
        bytes_le(a, c),
    decreases a.len(),
{
    if a.len() > 0 && b.len() > 0 && c.len() > 0 && a[0] == b[0] && b[0] == c[0] {
        lemma_bytes_le_trans(a.drop_first(), b.drop_first(), c.drop_first());
    }
}

/// How far a pal's breeding power is from `t`.
pub open spec fn power_dist(r: PalRow, t: int) -> int {
    if r.breed_power >= t {
        r.breed_power - t
    } else {
        t - r.breed_power
    }
}

/// `a` sorts before or with `b` for a target power: nearer power first, then smaller id.
pub open spec fn nearer(a: PalRow, b: PalRow, t: int) -> bool {
    power_dist(a, t) < power_dist(b, t) || (power_dist(a, t) == power_dist(b, t) && bytes_le(
        encode_utf8(a.internal_id@),
        encode_utf8(b.internal_id@),
    ))
}


/// The best pal for a target power among rows `i..`: the nearest non-boss pal (see
/// `nearer`), the earliest row among equals.
pub open spec fn closest_from(pals: Seq<PalRow>, t: int, i: int) -> Option<int>
    decreases pals.len() - i,
{
    if i < 0 || i >= pals.len() {
        None
    } else {
        let rest = closest_from(pals, t, i + 1);
        if boss_like(pals[i].internal_id@) {
            rest
        } else {
            match rest {
                None => Some(i),
                Some(j) => if nearer(pals[i], pals[j], t) {
                    Some(i)
                } else {
                    Some(j)
                },
            }
        }
    }
}

/// The id of the non-boss pal whose breeding power is nearest `t` (ties broken by the
/// smaller id); `SheepBall` when there is none.
pub open spec fn closest_id(pals: Seq<PalRow>, t: int) -> Seq<char> {
    match closest_from(pals, t, 0) {
        Some(i) => pals[i].internal_id@,
        None => "SheepBall"@,
    }
}

fn is_boss_like(id: &str) -> (r: bool)
    ensures
        r == boss_like(id@),
{
    let cs = chars_of(id);
    cs.len() >= 5 && (cs[0] == 'B' || cs[0] == 'b') && (cs[1] == 'O' || cs[1] == 'o') && (cs[2]
        == 'S' || cs[2] == 's') && (cs[3] == 'S' || cs[3] == 's')
}

pub(crate) fn bytes_le_exec(a: &[u8], b: &[u8]) -> (r: bool)
    ensures
        r == bytes_le(a@, b@),
{
    let mut k: usize = 0;
    assert(a@.skip(0) =~= a@);
    assert(b@.skip(0) =~= b@);
    while k < a.len() && k < b.len()
        invariant
            k <= a@.len(),
            k <= b@.len(),
            bytes_le(a@, b@) == bytes_le(a@.skip(k as int), b@.skip(k as int)),
        decreases a@.len() - k,
    {
        if a[k] < b[k] {
            return true;
        }
        if a[k] > b[k] {
            return false;
        }
        assert(a@.skip(k as int).drop_first() =~= a@.skip(k + 1));
        assert(b@.skip(k as int).drop_first() =~= b@.skip(k + 1));
        k = k + 1;
    }
    k == a.len()
}

fn is_nearer(a: &PalRow, b: &PalRow, t: i32) -> (r: bool)
    ensures
        r == nearer(*a, *b, t as int),
{
    let da: i64 = if a.breed_power >= t {
        a.breed_power as i64 - t as i64
    } else {
        t as i64 - a.breed_power as i64
    };
    let db: i64 = if b.breed_power >= t {
        b.breed_power as i64 - t as i64
    } else {
        t as i64 - b.breed_power as i64
    };
    da < db || (da == db && bytes_le_exec(
        a.internal_id.as_str().as_bytes(),
        b.internal_id.as_str().as_bytes(),
    ))
}

fn closest_index(pals: &Vec<PalRow>, t: i32) -> (r: Option<usize>)
    ensures
        crate::wire::opt_pos(r) == closest_from(pals@, t as int, 0),
{
    let mut best: Option<usize> = None;
    let mut i: usize = pals.len();
    while i > 0
        invariant
            i <= pals@.len(),
            crate::wire::opt_pos(best) == closest_from(pals@, t as int, i as int),
            best matches Some(j) ==> j < pals@.len(),
        decreases i,
    {
        i = i - 1;
        if !is_boss_like(pals[i].internal_id.as_str()) {
            best = match best {
                None => Some(i),
                Some(j) => if is_nearer(&pals[i], &pals[j], t) {
                    Some(i)
                } else {
                    Some(j)
                },
            };
        }
    }
    best
}

/// The nearest pick is never beaten: it is a non-boss pal, and every non-boss pal from
/// row `i` on is at least as far from the target, and of two equally near ones the pick
/// has the smaller or equal id.
pub proof fn lemma_closest_from_best(pals: Seq<PalRow>, t: int, i: int)
    requires
        0 <= i,
    ensures
        closest_from(pals, t, i) is None ==> forall|j: int|
            i <= j < pals.len() ==> boss_like(#[trigger] pals[j].internal_id@),
        closest_from(pals, t, i) matches Some(b) ==> i <= b < pals.len() && !boss_like(
            pals[b].internal_id@,
        ) && forall|j: int|
            i <= j < pals.len() && !boss_like(#[trigger] pals[j].internal_id@) ==> nearer(
                pals[b],
                pals[j],
                t,
            ),
    decreases pals.len() - i,
{
    if i < pals.len() {
        lemma_closest_from_best(pals, t, i + 1);
        if !boss_like(pals[i].internal_id@) {
            lemma_bytes_le_total(encode_utf8(pals[i].internal_id@), encode_utf8(pals[i].internal_id@));
            match closest_from(pals, t, i + 1) {
                None => {},
                Some(b0) => {
                    lemma_bytes_le_total(
                        encode_utf8(pals[i].internal_id@),
                        encode_utf8(pals[b0].internal_id@),
                    );
                    assert forall|j: int|
                        i <= j < pals.len() && !boss_like(
                            #[trigger] pals[j].internal_id@,
                        ) implies nearer(pals[closest_from(pals, t, i)->0], pals[j], t) by {
                        if j > i {
                            if nearer(pals[i], pals[b0], t) && power_dist(pals[i], t)
                                == power_dist(pals[b0], t) && power_dist(pals[b0], t)
                                == power_dist(pals[j], t) {
                                lemma_bytes_le_trans(
                                    encode_utf8(pals[i].internal_id@),
                                    encode_utf8(pals[b0].internal_id@),
                                    encode_utf8(pals[j].internal_id@),
                                );
                            }
                        } else {
                            lemma_bytes_le_total(
                                encode_utf8(pals[i].internal_id@),
                                encode_utf8(pals[i].internal_id@),
                            );
                        }
                    }
                },
            }
        }
    }
}

/// The pal picked for a target breeding power is nearest: no non-boss pal is nearer, and
/// among equally near ones it has the smallest id; `SheepBall` only when every pal is a
/// boss variant.
pub proof fn lemma_closest_is_nearest(pals: Seq<PalRow>, t: int)
    ensures
        closest_from(pals, t, 0) is None ==> forall|j: int|
            0 <= j < pals.len() ==> boss_like(#[trigger] pals[j].internal_id@),
        closest_from(pals, t, 0) matches Some(b) ==> 0 <= b < pals.len() && closest_id(pals, t)
            == pals[b].internal_id@ && !boss_like(pals[b].internal_id@) && forall|j: int|
            0 <= j < pals.len() && !boss_like(#[trigger] pals[j].internal_id@) ==> nearer(
                pals[b],
                pals[j],
                t,
            ),
{
    lemma_closest_from_best(pals, t, 0);
}

impl PalDb {
    /// The id of the non-boss pal nearest a breeding power (see `closest_id`).
    pub fn find_closest_pal_by_breed_power(&self, target_power: i32) -> (r: String)
        ensures
            r@ == closest_id(self.pals@, target_power as int),
    {
        match closest_index(&self.pals, target_power) {
            Some(i) => {
                proof {
                    lemma_closest_from_best(self.pals@, target_power as int, 0);
                }
                owned(self.pals[i].internal_id.as_str())
            },
            None => owned("SheepBall"),
        }
    }
}


/// Rust's `(a + b + 1) / 2` on breeding powers (division truncating toward zero).
pub open spec fn avg_power(a: int, b: int) -> int {
    let s = a + b + 1;
    if s >= 0 {
        s / 2
    } else {
        -((-s) / 2)
    }
}

/// Computing `a + b + 1` for two non-boss breeding powers never leaves the `i32` range.
pub open spec fn breed_sums_fit(pals: Seq<PalRow>) -> bool {
    forall|i: int, j: int|
        0 <= i < pals.len() && 0 <= j < pals.len() && !boss_like(#[trigger] pals[i].internal_id@)
            && !boss_like(#[trigger] pals[j].internal_id@) ==> i32::MIN <= pals[i].breed_power
            + pals[j].breed_power && pals[i].breed_power + pals[j].breed_power + 1 <= i32::MAX
}

/// Indices of the non-boss pals among the first `n` rows, in table order.
pub open spec fn candidates(pals: Seq<PalRow>, n: nat) -> Seq<int>
    decreases n,
{
    if n == 0 {
        Seq::empty()
    } else {
        let k = (n - 1) as nat;
        let rest = candidates(pals, k);
        if boss_like(pals[k as int].internal_id@) {
            rest
        } else {
            rest.push(k as int)
        }
    }
}

pub proof fn lemma_candidates(pals: Seq<PalRow>, n: nat)
    requires
        n <= pals.len(),
    ensures
        forall|k: int|
            0 <= k < candidates(pals, n).len() ==> 0 <= #[trigger] candidates(pals, n)[k] < n
                && !boss_like(pals[candidates(pals, n)[k]].internal_id@),
    decreases n,
{
    if n > 0 {
        let k = (n - 1) as nat;
        lemma_candidates(pals, k);
        let rest = candidates(pals, k);
        assert forall|q: int| 0 <= q < candidates(pals, n).len() implies 0
            <= #[trigger] candidates(pals, n)[q] < n && !boss_like(
            pals[candidates(pals, n)[q]].internal_id@,
        ) by {
            if q < rest.len() {
                assert(candidates(pals, n)[q] == rest[q]);
            }
        }
    }
}

/// Pairs `(c[i], c[j])` for `j` from `j` on whose average power breeds `target`.
pub open spec fn pair_row(pals: Seq<PalRow>, c: Seq<int>, target: Seq<char>, i: int, j: int) -> Seq<
    (Seq<char>, Seq<char>),
>
    decreases c.len() - j,
{
    if j < 0 || j >= c.len() {
        Seq::empty()
    } else {
        let a = pals[c[i]];
        let b = pals[c[j]];
        let found: Seq<(Seq<char>, Seq<char>)> = if closest_id(
            pals,
            avg_power(a.breed_power as int, b.breed_power as int),
        ) == target {
            seq![(a.internal_id@, b.internal_id@)]
        } else {
            Seq::empty()
        };
        found + pair_row(pals, c, target, i, j + 1)
    }
}

/// Unordered pairs of candidates (each pal also with itself), from `i` on, that breed
/// `target` by average power.
pub open spec fn pair_rows(pals: Seq<PalRow>, c: Seq<int>, target: Seq<char>, i: int) -> Seq<
    (Seq<char>, Seq<char>),
>
    decreases c.len() - i,
{
    if i < 0 || i >= c.len() {
        Seq::empty()
    } else {
        pair_row(pals, c, target, i, i) + pair_rows(pals, c, target, i + 1)
    }
}

/// Parent pairs of the exception rows among the first `n` whose child is `target` or
/// its English name `en`.
pub open spec fn exception_parents(ex: Seq<ExceptionRow>, target: Seq<char>, en: Seq<char>, n: nat) -> Seq<
    (Seq<char>, Seq<char>),
>
    decreases n,
{
    if n == 0 {
        Seq::empty()
    } else {
        let k = (n - 1) as nat;
        let rest = exception_parents(ex, target, en, k);
        let e = ex[k as int];
        if e.child@ == target || e.child@ == en {
            rest.push((e.parent_a@, e.parent_b@))
        } else {
            rest
        }
    }
}

/// All parent pairs for the pal matched by id or name: the exception pairs producing it,
/// then every unordered pair of non-boss pals whose average power breeds it. None when no
/// pal matches.
pub open spec fn breeding_parents(db: PalDb, child_name: Seq<char>) -> Seq<(Seq<char>, Seq<char>)> {
    match pal_by_name(db.pals@, child_name) {
        None => Seq::empty(),
        Some(k) => {
            let target = db.pals@[k].internal_id@;
            let en = db.pals@[pal_by_id(db.pals@, target)->0].name_en@;
            exception_parents(db.exceptions@, target, en, db.exceptions@.len()) + pair_rows(
                db.pals@,
                candidates(db.pals@, db.pals@.len()),
                target,
                0,
            )
        },
    }
}

/// Views of pairs of strings.
pub open spec fn string_pairs(v: Seq<(String, String)>) -> Seq<(Seq<char>, Seq<char>)> {
    v.map_values(|e: (String, String)| (e.0@, e.1@))
}

pub(crate) fn avg_of(a: i32, b: i32) -> (r: i32)
    requires
        i32::MIN <= a + b,
        a + b + 1 <= i32::MAX,
    ensures
        r == avg_power(a as int, b as int),
{
    (a + b + 1) / 2
}

impl PalDb {
    /// All parent pairs that breed the pal matched by id or name (see
    /// `breeding_parents`).
    pub fn find_breeding_parents_for_target(&self, child_name: &str) -> (r: Vec<(String, String)>)
        requires
            pal_by_name(self.pals@, child_name@) is Some ==> breed_sums_fit(self.pals@),
        ensures
            string_pairs(r@) == breeding_parents(*self, child_name@),
    {
        let mut parents: Vec<(String, String)> = Vec::new();
        let k = match find_pal_by_name(&self.pals, child_name) {
            None => {
                assert(string_pairs(parents@) =~= Seq::empty());
                return parents;
            },
            Some(k) => k,
        };
        proof {
            lemma_first_from_found(
                self.pals@,
                pal_name_is(child_name@),
                0,
            );
        }
        let target = self.pals[k].internal_id.as_str();
        let t0 = match find_pal_by_id(&self.pals, target) {
            Some(t0) => t0,
            None => {
                proof {
                    lemma_first_from_missing(self.pals@, pal_id_is(target@), 0, k as int);
                }
                k
            },
        };
        proof {
            lemma_first_from_found(self.pals@, pal_id_is(target@), 0);
        }
        let en = self.pals[t0].name_en.as_str();
        let ghost total = breeding_parents(*self, child_name@);
        let mut e: usize = 0;
        assert(string_pairs(parents@) =~= exception_parents(self.exceptions@, target@, en@, 0));
        while e < self.exceptions.len()
            invariant
                e <= self.exceptions@.len(),
                string_pairs(parents@) == exception_parents(
                    self.exceptions@,
                    target@,
                    en@,
                    e as nat,
                ),
            decreases self.exceptions@.len() - e,
        {
            let row = &self.exceptions[e];
            if text_eq(row.child.as_str(), target) || text_eq(row.child.as_str(), en) {
                let ghost before = parents@;
                parents.push((owned(row.parent_a.as_str()), owned(row.parent_b.as_str())));
                assert(string_pairs(parents@) =~= string_pairs(before).push(
                    (row.parent_a@, row.parent_b@),
                ));
            }
            e = e + 1;
        }
        let mut cand: Vec<usize> = Vec::new();
        let mut n: usize = 0;
        while n < self.pals.len()
            invariant
                n <= self.pals@.len(),
                cand@.len() == candidates(self.pals@, n as nat).len(),
                forall|q: int|
                    0 <= q < cand@.len() ==> cand@[q] as int == #[trigger] candidates(
                        self.pals@,
                        n as nat,
                    )[q],
            decreases self.pals@.len() - n,
        {
            if !is_boss_like(self.pals[n].internal_id.as_str()) {
                cand.push(n);
            }
            n = n + 1;
        }
        let ghost c = candidates(self.pals@, self.pals@.len());
        proof {
            lemma_candidates(self.pals@, self.pals@.len());
            assert(total == string_pairs(parents@) + pair_rows(self.pals@, c, target@, 0));
        }
        let mut i: usize = 0;
        while i < cand.len()
            invariant
                i <= cand@.len(),
                cand@.len() == c.len(),
                forall|q: int| 0 <= q < cand@.len() ==> cand@[q] as int == #[trigger] c[q],
                forall|q: int|
                    0 <= q < c.len() ==> 0 <= #[trigger] c[q] < self.pals@.len() && !boss_like(
                        self.pals@[c[q]].internal_id@,
                    ),
                breed_sums_fit(self.pals@),
                total == string_pairs(parents@) + pair_rows(self.pals@, c, target@, i as int),
            decreases cand@.len() - i,
        {
            let mut j: usize = i;
            assert(pair_rows(self.pals@, c, target@, i as int) == pair_row(
                self.pals@,
                c,
                target@,
                i as int,
                i as int,
            ) + pair_rows(self.pals@, c, target@, i + 1));
            assert(total == string_pairs(parents@) + pair_row(
                self.pals@,
                c,
                target@,
                i as int,
                j as int,
            ) + pair_rows(self.pals@, c, target@, i + 1)) by {
                assert(string_pairs(parents@) + (pair_row(
                    self.pals@,
                    c,
                    target@,
                    i as int,
                    i as int,
                ) + pair_rows(self.pals@, c, target@, i + 1)) =~= string_pairs(parents@) + pair_row(
                    self.pals@,
                    c,
                    target@,
                    i as int,
                    i as int,
                ) + pair_rows(self.pals@, c, target@, i + 1));
            }
            while j < cand.len()
                invariant
                    i < cand@.len(),
                    i <= j <= cand@.len(),
                    cand@.len() == c.len(),
                    forall|q: int| 0 <= q < cand@.len() ==> cand@[q] as int == #[trigger] c[q],
                    forall|q: int|
                        0 <= q < c.len() ==> 0 <= #[trigger] c[q] < self.pals@.len() && !boss_like(
                            self.pals@[c[q]].internal_id@,
                        ),
                    breed_sums_fit(self.pals@),
                    total == string_pairs(parents@) + pair_row(
                        self.pals@,
                        c,
                        target@,
                        i as int,
                        j as int,
                    ) + pair_rows(self.pals@, c, target@, i + 1),
                decreases cand@.len() - j,
            {
                let pa = &self.pals[cand[i]];
                let pb = &self.pals[cand[j]];
                assert(c[i as int] == cand@[i as int] as int);
                assert(c[j as int] == cand@[j as int] as int);
                let avg = avg_of(pa.breed_power, pb.breed_power);
                let ghost before = parents@;
                let ghost rest = pair_row(self.pals@, c, target@, i as int, j + 1);
                let ghost tail = pair_rows(self.pals@, c, target@, i + 1);
                let child = closest_index(&self.pals, avg);
                proof {
                    lemma_closest_from_best(self.pals@, avg as int, 0);
                }
                let hit = match child {
                    Some(ci) => text_eq(self.pals[ci].internal_id.as_str(), target),
                    None => text_eq("SheepBall", target),
                };
                if hit {
                    parents.push((owned(pa.internal_id.as_str()), owned(pb.internal_id.as_str())));
                    assert(string_pairs(parents@) =~= string_pairs(before) + seq![
                        (pa.internal_id@, pb.internal_id@),
                    ]);
                    assert(string_pairs(before) + (seq![(pa.internal_id@, pb.internal_id@)]
                        + rest) + tail =~= string_pairs(parents@) + rest + tail);
                } else {
                    assert(string_pairs(before) + (Seq::empty() + rest) + tail =~= string_pairs(
                        parents@,
                    ) + rest + tail);
                }
                j = j + 1;
            }
            assert(string_pairs(parents@) + pair_row(self.pals@, c, target@, i as int, j as int)
                + pair_rows(self.pals@, c, target@, i + 1) =~= string_pairs(parents@) + pair_rows(
                self.pals@,
                c,
                target@,
                i + 1,
            ));
            i = i + 1;
        }
        assert(string_pairs(parents@) + pair_rows(self.pals@, c, target@, i as int)
            =~= string_pairs(parents@));
        parents
    }
}

pub proof fn lemma_first_from_missing<T>(s: Seq<T>, p: spec_fn(T) -> bool, i: int, k: int)
    requires
        0 <= i <= k < s.len(),
        p(s[k]),
    ensures
        first_from(s, p, i) is Some,
    decreases k - i,
{
    if !p(s[i]) {
        lemma_first_from_missing(s, p, i + 1, k);
    }
}


/// The child of two parents, translated, with the average breeding power used (0 for a
/// special pair): the exception's child when the pair is special, else the pal nearest
/// the parents' average power (each parent's power by id or name, 1500 when unknown).
pub open spec fn child_of(db: PalDb, a: Seq<char>, b: Seq<char>, es: bool) -> (Seq<char>, nat) {
    match exception_for(db.exceptions@, a, b) {
        Some(i) => (translated_pal(db.pals@, db.exceptions@[i].child@, es), 0),
        None => {
            let avg = avg_power(breed_power_of_name(db.pals@, a), breed_power_of_name(db.pals@, b));
            (translated_pal(db.pals@, closest_id(db.pals@, avg), es), (avg as u32) as nat)
        },
    }
}

impl PalDb {
    /// The child two parents breed, in the chosen language (see `child_of`).
    pub fn find_child_pal(&self, parent_a: &str, parent_b: &str, use_es: bool) -> (r: (String, u32))
        requires
            exception_for(self.exceptions@, parent_a@, parent_b@) is None ==> i32::MIN
                <= breed_power_of_name(self.pals@, parent_a@) + breed_power_of_name(
                self.pals@,
                parent_b@,
            ) && breed_power_of_name(self.pals@, parent_a@) + breed_power_of_name(
                self.pals@,
                parent_b@,
            ) + 1 <= i32::MAX,
        ensures
            (r.0@, r.1 as nat) == child_of(*self, parent_a@, parent_b@, use_es),
    {
        if let Some(child_id) = self.check_breeding_exception(parent_a, parent_b) {
            let child = self.translate_pal(child_id.as_str(), use_es);
            return (child, 0);
        }
        let power_a = self.get_breed_power_by_name(parent_a);
        let power_b = self.get_breed_power_by_name(parent_b);
        let avg = avg_of(power_a, power_b);
        let child_id = self.find_closest_pal_by_breed_power(avg);
        let child = self.translate_pal(child_id.as_str(), use_es);
        (child, avg as u32)
    }
}


/// The exception found for a pair is a row of the table.
pub proof fn lemma_exception_found(ex: Seq<ExceptionRow>, a: Seq<char>, b: Seq<char>)
    ensures
        exception_for(ex, a, b) matches Some(i) ==> 0 <= i < ex.len(),
{
    lemma_first_from_found(
        ex,
        exception_pair(a, b),
        0,
    );
}

/// The exception found for a pair does not depend on the order of the parents, and a
/// pair has one exactly when some row names its two parents (in either order); the row
/// found is such a row.
pub proof fn lemma_exception_symmetric(ex: Seq<ExceptionRow>, a: Seq<char>, b: Seq<char>)
    ensures
        exception_for(ex, a, b) == exception_for(ex, b, a),
        exception_for(ex, a, b) matches Some(i) ==> 0 <= i < ex.len() && ((ex[i].parent_a@ == a
            && ex[i].parent_b@ == b) || (ex[i].parent_a@ == b && ex[i].parent_b@ == a)),
        exception_for(ex, a, b) is Some <==> exists|i: int|
            0 <= i < ex.len() && ((#[trigger] ex[i].parent_a@ == a && ex[i].parent_b@ == b) || (
            ex[i].parent_a@ == b && ex[i].parent_b@ == a)),
{
    assert(exception_pair(a, b) =~= exception_pair(b, a));
    lemma_first_from_found(ex, exception_pair(a, b), 0);
    if exists|i: int|
        0 <= i < ex.len() && ((#[trigger] ex[i].parent_a@ == a && ex[i].parent_b@ == b) || (
        ex[i].parent_a@ == b && ex[i].parent_b@ == a)) {
        let i = choose|i: int|
            0 <= i < ex.len() && ((#[trigger] ex[i].parent_a@ == a && ex[i].parent_b@ == b) || (
            ex[i].parent_a@ == b && ex[i].parent_b@ == a));
        assert(exception_pair(a, b)(ex[i]));
        lemma_first_from_missing(ex, exception_pair(a, b), 0, i);
    }
}


/// The pal matched by a name is a row of the table.
pub proof fn lemma_pal_by_name_found(pals: Seq<PalRow>, name: Seq<char>)
    ensures
        pal_by_name(pals, name) matches Some(i) ==> 0 <= i < pals.len(),
{
    lemma_first_from_found(
        pals,
        pal_name_is(name),
        0,
    );
}

impl PalDb {
    /// Whether a pal is known by id or name.
    pub fn is_known_pal(&self, name: &str) -> (r: bool)
        ensures
            r == (pal_by_name(self.pals@, name@) is Some),
    {
        find_pal_by_name(&self.pals, name).is_some()
    }
}

} // verus!
