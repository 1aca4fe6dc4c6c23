//! The decisions of the MCP server loop: what each JSON-RPC method gets, which tools are
//! offered, which report a tool call runs, and the texts of the recipe, active-skill,
//! target-breeding and drop tools.
use vstd::prelude::*;
use crate::db::{
    append_text, breed_sums_fit, breeding_parents, droppers_of, drops_of, drops_view, item_by_name,
    owned, pal_by_name, recipe_of, skill_by_id, string_pairs, texts, translated_item, translated_pal,
    PalDb, pairs_view,
};
use crate::text::{i64_text, int_text, text_eq};

verus! {

/// What the server does with a request.
#[derive(PartialEq, Eq, Structural, Clone, Copy, Debug)]
pub enum McpAction {
    /// Answer with the server's capabilities and identity.
    Initialize,
    /// Answer with the list of tools.
    ListTools,
    /// Run the tool named in the parameters.
    CallTool,
    /// Answer with a "method not found" error.
    MethodNotFound,
    /// Send nothing (a notification of an unknown method).
    Ignore,
}

/// The action for a method: the three known methods, else an error when the request has
/// an id and nothing for a notification.
pub open spec fn action_for(method: Seq<char>, has_id: bool) -> McpAction {
    if method == "initialize"@ {
        McpAction::Initialize
    } else if method == "tools/list"@ {
        McpAction::ListTools
    } else if method == "tools/call"@ {
        McpAction::CallTool
    } else if has_id {
        McpAction::MethodNotFound
    } else {
        McpAction::Ignore
    }
}

/// The action for a request (see `action_for`).
pub fn mcp_action(method: &str, has_id: bool) -> (r: McpAction)
    ensures
        r == action_for(method@, has_id),
{
    if text_eq(method, "initialize") {
        McpAction::Initialize
    } else if text_eq(method, "tools/list") {
        McpAction::ListTools
    } else if text_eq(method, "tools/call") {
        McpAction::CallTool
    } else if has_id {
        McpAction::MethodNotFound
    } else {
        McpAction::Ignore
    }
}

/// The error message for an unknown method.
pub fn method_not_found_message(method: &str) -> (r: String)
    ensures
        r@ == "Method not found: "@ + method@,
{
    let mut out = owned("Method not found: ");
    append_text(&mut out, method);
    out
}

/// The report command a report tool runs, and whether it is scoped to a player.
/// `search_chest` runs `search-chest:` followed by the query.
pub open spec fn tool_command(tool: Seq<char>, query: Seq<char>) -> Option<(Seq<char>, bool)> {
    if tool == "list_worlds"@ {
        Some(("list-worlds"@, false))
    } else if tool == "query_time"@ {
        Some(("time"@, false))
    } else if tool == "query_settings"@ {
        Some(("settings"@, false))
    } else if tool == "search_chest"@ {
        Some(("search-chest:"@ + query, false))
    } else if tool == "query_breeding"@ {
        Some(("breeding"@, true))
    } else if tool == "query_progress"@ {
        Some(("progress"@, true))
    } else if tool == "monitor_pals"@ {
        Some(("monitor"@, true))
    } else if tool == "query_analyzer"@ {
        Some(("analyzer"@, true))
    } else if tool == "query_full"@ {
        Some(("full"@, true))
    } else {
        None
    }
}

/// The report command for a tool (see `tool_command`).
pub fn tool_to_command(tool: &str, query: &str) -> (r: Option<(String, bool)>)
    ensures
        tool_command(tool@, query@) is None ==> r is None,
        tool_command(tool@, query@) matches Some((c, scoped)) ==> r matches Some((rc, rs))
            && rc@ == c && rs == scoped,
{
    if text_eq(tool, "list_worlds") {
        Some((owned("list-worlds"), false))
    } else if text_eq(tool, "query_time") {
        Some((owned("time"), false))
    } else if text_eq(tool, "query_settings") {
        Some((owned("settings"), false))
    } else if text_eq(tool, "search_chest") {
        let mut c = owned("search-chest:");
        append_text(&mut c, query);
        Some((c, false))
    } else if text_eq(tool, "query_breeding") {
        Some((owned("breeding"), true))
    } else if text_eq(tool, "query_progress") {
        Some((owned("progress"), true))
    } else if text_eq(tool, "monitor_pals") {
        Some((owned("monitor"), true))
    } else if text_eq(tool, "query_analyzer") {
        Some((owned("analyzer"), true))
    } else if text_eq(tool, "query_full") {
        Some((owned("full"), true))
    } else {
        None
    }
}

/// The message for an unknown tool.
pub fn unknown_tool_message(tool: &str) -> (r: String)
    ensures
        r@ == "Unknown tool: "@ + tool@,
{
    let mut out = owned("Unknown tool: ");
    append_text(&mut out, tool);
    out
}

/// One ingredient line of a recipe: `  - name: count`.
pub open spec fn ingredient_line(name: Seq<char>, count: int) -> Seq<char> {
    "  - "@ + name + ": "@ + int_text(count) + "\n"@
}

/// The ingredient lines of the first `n` ingredients, names translated.
pub open spec fn ingredient_lines(db: PalDb, ings: Seq<(Seq<char>, int)>, use_es: bool, n: nat) -> Seq<char>
    decreases n,
{
    if n == 0 {
        Seq::empty()
    } else {
        let k = (n - 1) as nat;
        ingredient_lines(db, ings, use_es, k) + ingredient_line(
            translated_item(db.items@, ings[k as int].0, use_es),
            ings[k as int].1,
        )
    }
}

/// The text of the recipe tool: the known recipes when no item is given; a "no recipe"
/// message when the item has none; else a heading with the translated item and one line
/// per ingredient.
pub open spec fn recipe_answer(db: PalDb, item_id: Seq<char>, use_es: bool) -> Seq<char> {
    if item_id.len() == 0 {
        if use_es {
            "Objetos conocidos con recetas: palsphere (Esfera Pal), palsphere_mega (Megaesfera), palsphere_giga (Gigaesfera)"@
        } else {
            "Known items with recipes: palsphere, palsphere_mega, palsphere_giga"@
        }
    } else {
        let ings = recipe_of(db.recipes@, item_id, db.recipes@.len());
        if ings.len() == 0 {
            if use_es {
                "No se encontró receta para: "@ + item_id
            } else {
                "No recipe found for: "@ + item_id
            }
        } else {
            let head = if use_es {
                "Receta para "@
            } else {
                "Recipe for "@
            };
            head + translated_item(db.items@, item_id, use_es) + ":\n"@ + ingredient_lines(
                db,
                ings,
                use_es,
                ings.len(),
            )
        }
    }
}

/// The text of the recipe tool (see `recipe_answer`).
pub fn recipe_text(db: &PalDb, item_id: &str, use_es: bool) -> (r: String)
    ensures
        r@ == recipe_answer(*db, item_id@, use_es),
{
    if item_id.is_empty() {
        if use_es {
            return owned(
                "Objetos conocidos con recetas: palsphere (Esfera Pal), palsphere_mega (Megaesfera), palsphere_giga (Gigaesfera)",
            );
        } else {
            return owned("Known items with recipes: palsphere, palsphere_mega, palsphere_giga");
        }
    }
    let recipe = db.get_recipe(item_id);
    let ghost ings = pairs_view(recipe@);
    if recipe.len() == 0 {
        let mut out = if use_es {
            owned("No se encontró receta para: ")
        } else {
            owned("No recipe found for: ")
        };
        append_text(&mut out, item_id);
        return out;
    }
    let translated = db.translate_item(item_id, use_es);
    let mut out = if use_es {
        owned("Receta para ")
    } else {
        owned("Recipe for ")
    };
    append_text(&mut out, translated.as_str());
    append_text(&mut out, ":\n");
    let ghost head = out@;
    let mut k: usize = 0;
    while k < recipe.len()
        invariant
            ings == pairs_view(recipe@),
            k <= recipe@.len(),
            out@ == head + ingredient_lines(*db, ings, use_es, k as nat),
        decreases recipe@.len() - k,
    {
        let name = db.translate_item(recipe[k].0.as_str(), use_es);
        append_text(&mut out, "  - ");
        append_text(&mut out, name.as_str());
        append_text(&mut out, ": ");
        let cnt = i64_text(recipe[k].1 as i64);
        append_text(&mut out, cnt.as_str());
        append_text(&mut out, "\n");
        assert(ings[k as int] == (recipe@[k as int].0@, recipe@[k as int].1 as int));
        assert(out@ =~= head + ingredient_lines(*db, ings, use_es, (k + 1) as nat));
        k = k + 1;
    }
    out
}

/// The text of the active-skill tool: the known skills when no id is given; the skill's
/// name, power, cooldown and element when it is known; else an "unknown skill" message.
pub open spec fn skill_answer(db: PalDb, skill_id: Seq<char>, use_es: bool) -> Seq<char> {
    if skill_id.len() == 0 {
        if use_es {
            "Habilidades conocidas: AirCanon, HydroLaser, DragonBreath, DarkLaser, FireBlast, WindCutter, AquaGun, ElectroBall, SandBlast, IceMissile"@
        } else {
            "Known skills: AirCanon, HydroLaser, DragonBreath, DarkLaser, FireBlast, WindCutter, AquaGun, ElectroBall, SandBlast, IceMissile"@
        }
    } else {
        match skill_by_id(db.skills@, skill_id) {
            Some(i) => {
                let sk = db.skills@[i];
                let name = if use_es {
                    sk.name_es@
                } else {
                    sk.name_en@
                };
                if use_es {
                    "Habilidad: "@ + name + "\n  - Poder: "@ + int_text(sk.power as int)
                        + "\n  - Tiempo de Recarga: "@ + int_text(sk.cooldown as int)
                        + "s\n  - Elemento: "@ + sk.element@
                } else {
                    "Skill: "@ + name + "\n  - Power: "@ + int_text(sk.power as int)
                        + "\n  - Cooldown: "@ + int_text(sk.cooldown as int) + "s\n  - Element: "@
                        + sk.element@
                }
            },
            None => if use_es {
                "Habilidad desconocida: "@ + skill_id
            } else {
                "Unknown skill: "@ + skill_id
            },
        }
    }
}

/// The text of the active-skill tool (see `skill_answer`).
pub fn skill_text(db: &PalDb, skill_id: &str, use_es: bool) -> (r: String)
    ensures
        r@ == skill_answer(*db, skill_id@, use_es),
{
    if skill_id.is_empty() {
        if use_es {
            return owned(
                "Habilidades conocidas: AirCanon, HydroLaser, DragonBreath, DarkLaser, FireBlast, WindCutter, AquaGun, ElectroBall, SandBlast, IceMissile",
            );
        } else {
            return owned(
                "Known skills: AirCanon, HydroLaser, DragonBreath, DarkLaser, FireBlast, WindCutter, AquaGun, ElectroBall, SandBlast, IceMissile",
            );
        }
    }
    match db.translate_active_skill(skill_id, use_es) {
        Some((name, power, cd, element)) => {
            let p = i64_text(power as i64);
            let c = i64_text(cd as i64);
            let mut out = if use_es {
                owned("Habilidad: ")
            } else {
                owned("Skill: ")
            };
            append_text(&mut out, name.as_str());
            if use_es {
                append_text(&mut out, "\n  - Poder: ");
            } else {
                append_text(&mut out, "\n  - Power: ");
            }
            append_text(&mut out, p.as_str());
            if use_es {
                append_text(&mut out, "\n  - Tiempo de Recarga: ");
            } else {
                append_text(&mut out, "\n  - Cooldown: ");
            }
            append_text(&mut out, c.as_str());
            if use_es {
                append_text(&mut out, "s\n  - Elemento: ");
            } else {
                append_text(&mut out, "s\n  - Element: ");
            }
            append_text(&mut out, element.as_str());
            out
        },
        None => {
            let mut out = if use_es {
                owned("Habilidad desconocida: ")
            } else {
                owned("Unknown skill: ")
            };
            append_text(&mut out, skill_id);
            out
        },
    }
}

/// The text for a language: `es` in Spanish, else `en`.
pub open spec fn pick(use_es: bool, es: Seq<char>, en: Seq<char>) -> Seq<char> {
    if use_es {
        es
    } else {
        en
    }
}

/// One line per parent pair of the first `n`: `  - father + mother`, names translated.
pub open spec fn parent_lines(db: PalDb, ps: Seq<(Seq<char>, Seq<char>)>, use_es: bool, n: nat) -> Seq<char>
    decreases n,
{
    if n == 0 {
        Seq::empty()
    } else {
        let k = (n - 1) as nat;
        parent_lines(db, ps, use_es, k) + "  - "@ + translated_pal(db.pals@, ps[k as int].0, use_es)
            + " + "@ + translated_pal(db.pals@, ps[k as int].1, use_es) + "\n"@
    }
}

/// The text of the target-breeding tool: the parent pairs that breed the pal named (see
/// `breeding_parents`), one per line, or a message when there are none.
pub open spec fn target_answer(db: PalDb, target: Seq<char>, use_es: bool) -> Seq<char> {
    let ps = breeding_parents(db, target);
    if ps.len() == 0 {
        pick(use_es, "No se encontraron combinaciones de padres para: "@, "No parent combinations found for: "@)
            + target
    } else {
        pick(use_es, "Combinaciones de padres para "@, "Parent combinations for "@) + target + ":\n"@
            + parent_lines(db, ps, use_es, ps.len())
    }
}

/// The text of the target-breeding tool (see `target_answer`).
pub fn target_breeding_text(db: &PalDb, target: &str, use_es: bool) -> (r: String)
    requires
        crate::breeding::powers_fit(db.pals@),
    ensures
        r@ == target_answer(*db, target@, use_es),
{
    assert(breed_sums_fit(db.pals@)) by {
        assert forall|i: int, j: int|
            0 <= i < db.pals@.len() && 0 <= j < db.pals@.len() implies crate::breeding::sum_fits(
            #[trigger] db.pals@[i].breed_power as int,
            #[trigger] db.pals@[j].breed_power as int,
        ) by {}
    }
    let parents = db.find_breeding_parents_for_target(target);
    let ghost ps = string_pairs(parents@);
    if parents.len() == 0 {
        let mut out = if use_es {
            owned("No se encontraron combinaciones de padres para: ")
        } else {
            owned("No parent combinations found for: ")
        };
        append_text(&mut out, target);
        return out;
    }
    let mut out = if use_es {
        owned("Combinaciones de padres para ")
    } else {
        owned("Parent combinations for ")
    };
    append_text(&mut out, target);
    append_text(&mut out, ":\n");
    let ghost head = out@;
    let mut k: usize = 0;
    while k < parents.len()
        invariant
            ps == string_pairs(parents@),
            k <= parents@.len(),
            out@ == head + parent_lines(*db, ps, use_es, k as nat),
        decreases parents@.len() - k,
    {
        let a = db.translate_pal(parents[k].0.as_str(), use_es);
        let b = db.translate_pal(parents[k].1.as_str(), use_es);
        append_text(&mut out, "  - ");
        append_text(&mut out, a.as_str());
        append_text(&mut out, " + ");
        append_text(&mut out, b.as_str());
        append_text(&mut out, "\n");
        assert(ps[k as int] == (parents@[k as int].0@, parents@[k as int].1@));
        assert(out@ =~= head + parent_lines(*db, ps, use_es, (k + 1) as nat));
        k = k + 1;
    }
    out
}

/// One line per drop of the first `n`: `  - item: chance% (min-max)`, item translated.
pub open spec fn drop_lines(db: PalDb, ds: Seq<(Seq<char>, int, int, int)>, use_es: bool, n: nat) -> Seq<char>
    decreases n,
{
    if n == 0 {
        Seq::empty()
    } else {
        let k = (n - 1) as nat;
        let d = ds[k as int];
        drop_lines(db, ds, use_es, k) + "  - "@ + translated_item(db.items@, d.0, use_es) + ": "@
            + int_text(d.1) + "% ("@ + int_text(d.2) + "-"@ + int_text(d.3) + ")\n"@
    }
}

/// One line per pal of the first `n`: `  - pal`, translated.
pub open spec fn dropper_lines(db: PalDb, ps: Seq<Seq<char>>, use_es: bool, n: nat) -> Seq<char>
    decreases n,
{
    if n == 0 {
        Seq::empty()
    } else {
        let k = (n - 1) as nat;
        dropper_lines(db, ps, use_es, k) + "  - "@ + translated_pal(db.pals@, ps[k as int], use_es)
            + "\n"@
    }
}

/// The drops of the pal named by id or name (none for an unknown pal).
pub open spec fn pal_drop_rows(db: PalDb, pal_name: Seq<char>) -> Seq<(Seq<char>, int, int, int)> {
    match pal_by_name(db.pals@, pal_name) {
        Some(i) => drops_of(db.drops@, db.pals@[i].internal_id@, db.drops@.len()),
        None => Seq::empty(),
    }
}

/// The pals dropping the item named by id or name (none for an unknown item).
pub open spec fn item_droppers(db: PalDb, item_name: Seq<char>) -> Seq<Seq<char>> {
    match item_by_name(db.items@, item_name) {
        Some(i) => droppers_of(db.drops@, db.items@[i].internal_id@, db.drops@.len()),
        None => Seq::empty(),
    }
}

/// The text of the drops tool: for a pal name, its drops with chance and quantities; else
/// for an item name, the pals that drop it; a message when there is nothing to list or
/// neither name is given.
pub open spec fn drops_answer(db: PalDb, pal_name: Seq<char>, item_name: Seq<char>, use_es: bool) -> Seq<char> {
    if pal_name.len() > 0 {
        let ds = pal_drop_rows(db, pal_name);
        if ds.len() == 0 {
            pick(use_es, "No se encontraron objetos para: "@, "No drops found for: "@) + pal_name
        } else {
            pick(use_es, "Objetos de "@, "Drops of "@) + pal_name + ":\n"@ + drop_lines(
                db,
                ds,
                use_es,
                ds.len(),
            )
        }
    } else if item_name.len() > 0 {
        let ps = item_droppers(db, item_name);
        if ps.len() == 0 {
            pick(use_es, "Ningún Pal suelta: "@, "No Pals drop: "@) + item_name
        } else {
            pick(use_es, "Pals que sueltan "@, "Pals that drop "@) + item_name + ":\n"@
                + dropper_lines(db, ps, use_es, ps.len())
        }
    } else {
        pick(use_es, "Indica pal_name o item_name."@, "Give a pal_name or an item_name."@)
    }
}

/// The text of the drops tool (see `drops_answer`).
pub fn drops_text(db: &PalDb, pal_name: &str, item_name: &str, use_es: bool) -> (r: String)
    ensures
        r@ == drops_answer(*db, pal_name@, item_name@, use_es),
{
    if !pal_name.is_empty() {
        let drops = db.get_pal_drops(pal_name);
        let ghost ds = drops_view(drops@);
        if drops.len() == 0 {
            let mut out = if use_es {
                owned("No se encontraron objetos para: ")
            } else {
                owned("No drops found for: ")
            };
            append_text(&mut out, pal_name);
            return out;
        }
        let mut out = if use_es {
            owned("Objetos de ")
        } else {
            owned("Drops of ")
        };
        append_text(&mut out, pal_name);
        append_text(&mut out, ":\n");
        let ghost head = out@;
        let mut k: usize = 0;
        while k < drops.len()
            invariant
                ds == drops_view(drops@),
                k <= drops@.len(),
                out@ == head + drop_lines(*db, ds, use_es, k as nat),
            decreases drops@.len() - k,
        {
            let name = db.translate_item(drops[k].0.as_str(), use_es);
            let c = i64_text(drops[k].1 as i64);
            let lo = i64_text(drops[k].2 as i64);
            let hi = i64_text(drops[k].3 as i64);
            append_text(&mut out, "  - ");
            append_text(&mut out, name.as_str());
            append_text(&mut out, ": ");
            append_text(&mut out, c.as_str());
            append_text(&mut out, "% (");
            append_text(&mut out, lo.as_str());
            append_text(&mut out, "-");
            append_text(&mut out, hi.as_str());
            append_text(&mut out, ")\n");
            assert(ds[k as int] == (
                drops@[k as int].0@,
                drops@[k as int].1 as int,
                drops@[k as int].2 as int,
                drops@[k as int].3 as int,
            ));
            assert(out@ =~= head + drop_lines(*db, ds, use_es, (k + 1) as nat));
            k = k + 1;
        }
        return out;
    }
    if !item_name.is_empty() {
        let pals = db.get_pals_dropping_item(item_name);
        let ghost ps = texts(pals@);
        if pals.len() == 0 {
            let mut out = if use_es {
                owned("Ningún Pal suelta: ")
            } else {
                owned("No Pals drop: ")
            };
            append_text(&mut out, item_name);
            return out;
        }
        let mut out = if use_es {
            owned("Pals que sueltan ")
        } else {
            owned("Pals that drop ")
        };
        append_text(&mut out, item_name);
        append_text(&mut out, ":\n");
        let ghost head = out@;
        let mut k: usize = 0;
        while k < pals.len()
            invariant
                ps == texts(pals@),
                k <= pals@.len(),
                out@ == head + dropper_lines(*db, ps, use_es, k as nat),
            decreases pals@.len() - k,
        {
            let name = db.translate_pal(pals[k].as_str(), use_es);
            append_text(&mut out, "  - ");
            append_text(&mut out, name.as_str());
            append_text(&mut out, "\n");
            assert(ps[k as int] == pals@[k as int]@);
            assert(out@ =~= head + dropper_lines(*db, ps, use_es, (k + 1) as nat));
            k = k + 1;
        }
        return out;
    }
    if use_es {
        owned("Indica pal_name o item_name.")
    } else {
        owned("Give a pal_name or an item_name.")
    }
}

/// The tools that run a report.
pub open spec fn report_tools() -> Seq<Seq<char>> {
    seq![
        "list_worlds"@,
        "query_time"@,
        "query_settings"@,
        "search_chest"@,
        "query_breeding"@,
        "query_progress"@,
        "monitor_pals"@,
        "query_analyzer"@,
        "query_full"@,
    ]
}

/// The tools answered from the metadata tables.
pub open spec fn table_tools() -> Seq<Seq<char>> {
    seq!["query_recipes"@, "query_active_skills"@, "query_target_breeding"@, "query_drops"@]
}

/// Every tool the server offers, in the order it lists them.
pub open spec fn offered_tools() -> Seq<Seq<char>> {
    report_tools() + table_tools()
}

/// Views of a list of static texts.
pub open spec fn static_texts(v: Seq<&'static str>) -> Seq<Seq<char>> {
    v.map_values(|x: &'static str| x@)
}

/// The names of the tools the server offers (see `offered_tools`).
pub fn tool_names() -> (r: Vec<&'static str>)
    ensures
        static_texts(r@) == offered_tools(),
{
    let r = vec![
        "list_worlds",
        "query_time",
        "query_settings",
        "search_chest",
        "query_breeding",
        "query_progress",
        "monitor_pals",
        "query_analyzer",
        "query_full",
        "query_recipes",
        "query_active_skills",
        "query_target_breeding",
        "query_drops",
    ];
    assert(static_texts(r@) =~= offered_tools());
    r
}

/// Every report tool the server offers runs a report command.
pub proof fn lemma_report_tools_run(query: Seq<char>)
    ensures
        forall|i: int| 0 <= i < report_tools().len() ==> (#[trigger] tool_command(report_tools()[i], query)) is Some,
{
    reveal_strlit("list_worlds");
    reveal_strlit("query_time");
    reveal_strlit("query_settings");
    reveal_strlit("search_chest");
    reveal_strlit("query_breeding");
    reveal_strlit("query_progress");
    reveal_strlit("monitor_pals");
    reveal_strlit("query_analyzer");
    reveal_strlit("query_full");
    assert forall|i: int| 0 <= i < report_tools().len() implies (#[trigger] tool_command(report_tools()[i], query)) is Some by {
        assert(report_tools()[i] == report_tools()[i]);
    }
}

} // verus!
