use palagent_ai::breeding::{breed_powers_fit, find_breeding_path, reconstruct_breeding_tree};
use palagent_ai::db::{
    get_db_schema_summary, strip_boss_prefix, DropRow, ExceptionRow, ItemRow, PalDb, PalRow,
    PassiveRow, RecipeRow, SkillRow,
};
use palagent_ai::i18n::{language_for_locale, I18n, Language};
use palagent_ai::mcp::{drops_text, recipe_text, skill_text, target_breeding_text, tool_names};
use palagent_ai::report::breeding_combinations;

fn s(x: &str) -> String {
    x.to_string()
}

fn pal(id: &str, en: &str, es: &str, power: i32, work: [i32; 12]) -> PalRow {
    PalRow { internal_id: s(id), name_en: s(en), name_es: s(es), breed_power: power, work }
}

fn sample_db() -> PalDb {
    PalDb {
        pals: vec![
            pal("SheepBall", "Lamball", "Lamball_es", 1470, [0, 0, 0, 0, 1, 0, 0, 0, 0, 0, 1, 1]),
            pal("PinkCat", "Cattiva", "Cattiva_es", 1460, [0, 0, 0, 0, 1, 0, 0, 1, 0, 0, 1, 0]),
            pal("ChickenPal", "Chikipi", "Chikipi_es", 1500, [0; 12]),
            pal("Anubis", "Anubis", "Anubis_es", 570, [0; 12]),
            pal("BOSS_Anubis", "Anubis Boss", "Anubis Jefe", 570, [0; 12]),
        ],
        passives: vec![PassiveRow {
            internal_id: s("Legend"),
            name_en: s("Legend"),
            name_es: s("Leyenda"),
            description_en: s("Attack +20%"),
            description_es: s("Ataque +20%"),
        }],
        items: vec![
            ItemRow { internal_id: s("Wool"), name_en: s("Wool"), name_es: s("Lana") },
            ItemRow { internal_id: s("PalSphere"), name_en: s("Pal Sphere"), name_es: s("Esfera Pal") },
            ItemRow { internal_id: s("Wood"), name_en: s("Wood"), name_es: s("Madera") },
        ],
        exceptions: vec![ExceptionRow {
            parent_a: s("PinkCat"),
            parent_b: s("ChickenPal"),
            child: s("Anubis"),
        }],
        skills: vec![SkillRow {
            internal_id: s("AirCanon"),
            name_en: s("Air Cannon"),
            name_es: s("Cañón de Aire"),
            power: 25,
            cooldown: 2,
            element: s("Neutral"),
        }],
        recipes: vec![
            RecipeRow { item_id: s("PalSphere"), ingredient_id: s("Paldium"), count: 1 },
            RecipeRow { item_id: s("PalSphere"), ingredient_id: s("Wood"), count: 3 },
            RecipeRow { item_id: s("Other"), ingredient_id: s("Wood"), count: 9 },
        ],
        drops: vec![
            DropRow { pal_id: s("SheepBall"), item_id: s("Wool"), chance: 100, min_qty: 1, max_qty: 3 },
            DropRow { pal_id: s("PinkCat"), item_id: s("Wool"), chance: 50, min_qty: 1, max_qty: 1 },
        ],
    }
}

#[test]
fn translate_pal_names_and_alphas() {
    let db = sample_db();
    assert_eq!(db.translate_pal("SheepBall", false), "Lamball");
    assert_eq!(db.translate_pal("SheepBall", true), "Lamball_es");
    assert_eq!(db.translate_pal("BOSS_SheepBall", false), "Lamball (Alpha)");
    assert_eq!(db.translate_pal("BOSS_SheepBall", true), "Lamball_es (Alfa)");
    assert_eq!(db.translate_pal("BOSS_Anubis", false), "Anubis Boss");
    assert_eq!(db.translate_pal("BOSS_Unknown", false), "BOSS_Unknown");
    assert_eq!(db.translate_pal("Nobody", true), "Nobody");
}

#[test]
fn strip_boss() {
    assert_eq!(strip_boss_prefix("BOSS_X"), Some(s("X")));
    assert_eq!(strip_boss_prefix("BOSS"), None);
    assert_eq!(strip_boss_prefix("Boss_X"), None);
}

#[test]
fn passives_items_and_skills() {
    let db = sample_db();
    assert_eq!(db.translate_passive("Legend", true), (s("Leyenda"), s("Ataque +20%")));
    assert_eq!(db.translate_passive("Nope", true), (s("Nope"), s("")));
    assert_eq!(db.translate_item("Wool", true), "Lana");
    assert_eq!(db.translate_item("Stone", true), "Stone");
    assert_eq!(
        db.translate_active_skill("AirCanon", false),
        Some((s("Air Cannon"), 25, 2, s("Neutral")))
    );
    assert_eq!(db.translate_active_skill("Nope", false), None);
}

#[test]
fn suitabilities_in_column_order() {
    let db = sample_db();
    assert_eq!(
        db.get_pal_suitabilities("PinkCat"),
        vec![(s("Handwork"), 1), (s("Mining"), 1), (s("Transporting"), 1)]
    );
    assert!(db.get_pal_suitabilities("ChickenPal").is_empty());
    assert!(db.get_pal_suitabilities("Nobody").is_empty());
}

#[test]
fn breeding_exception_either_order() {
    let db = sample_db();
    assert_eq!(db.check_breeding_exception("PinkCat", "ChickenPal"), Some(s("Anubis")));
    assert_eq!(db.check_breeding_exception("ChickenPal", "PinkCat"), Some(s("Anubis")));
    assert_eq!(db.check_breeding_exception("PinkCat", "SheepBall"), None);
}

#[test]
fn breed_powers_default_to_1500() {
    let db = sample_db();
    assert_eq!(db.get_pal_breed_power("SheepBall"), 1470);
    assert_eq!(db.get_pal_breed_power("Lamball"), 1500);
    assert_eq!(db.get_breed_power_by_name("Lamball"), 1470);
    assert_eq!(db.get_breed_power_by_name("Cattiva_es"), 1460);
    assert_eq!(db.get_breed_power_by_name("Nobody"), 1500);
}

#[test]
fn recipes_and_drops() {
    let db = sample_db();
    assert_eq!(db.get_recipe("PalSphere"), vec![(s("Paldium"), 1), (s("Wood"), 3)]);
    assert!(db.get_recipe("Nothing").is_empty());
    assert_eq!(db.get_pal_drops("Lamball"), vec![(s("Wool"), 100, 1, 3)]);
    assert!(db.get_pal_drops("Nobody").is_empty());
    assert_eq!(db.get_pals_dropping_item("Lana"), vec![s("SheepBall"), s("PinkCat")]);
    assert!(db.get_pals_dropping_item("Nothing").is_empty());
}

#[test]
fn valid_and_known_pals() {
    let db = sample_db();
    assert!(db.is_valid_pal("BOSS_SheepBall"));
    assert!(db.is_valid_pal("Lamball"));
    assert!(!db.is_valid_pal("BOSS_Nope"));
    assert!(db.is_known_pal("Chikipi_es"));
    assert!(!db.is_known_pal("Nope"));
}

#[test]
fn closest_pal_ties_go_to_smaller_id_and_skip_bosses() {
    let db = sample_db();
    assert_eq!(db.find_closest_pal_by_breed_power(1465), "PinkCat");
    assert_eq!(db.find_closest_pal_by_breed_power(1485), "ChickenPal");
    assert_eq!(db.find_closest_pal_by_breed_power(1015), "Anubis");
    assert_eq!(db.find_closest_pal_by_breed_power(0), "Anubis");
    let empty = PalDb {
        pals: vec![],
        passives: vec![],
        items: vec![],
        exceptions: vec![],
        skills: vec![],
        recipes: vec![],
        drops: vec![],
    };
    assert_eq!(empty.find_closest_pal_by_breed_power(1000), "SheepBall");
}

#[test]
fn child_of_two_parents() {
    let db = sample_db();
    assert_eq!(db.find_child_pal("SheepBall", "ChickenPal", false), (s("Chikipi"), 1485));
    assert_eq!(db.find_child_pal("Lamball", "Anubis", true), (s("Cattiva_es"), 1020));
    assert_eq!(db.find_child_pal("ChickenPal", "PinkCat", false), (s("Anubis"), 0));
}

#[test]
fn parents_for_a_child() {
    let db = sample_db();
    assert_eq!(
        db.find_breeding_parents_for_target("Chikipi"),
        vec![(s("SheepBall"), s("ChickenPal")), (s("ChickenPal"), s("ChickenPal"))]
    );
    assert_eq!(
        db.find_breeding_parents_for_target("Anubis"),
        vec![(s("PinkCat"), s("ChickenPal")), (s("PinkCat"), s("Anubis")), (s("Anubis"), s("Anubis"))]
    );
    assert!(db.find_breeding_parents_for_target("Nobody").is_empty());
}

#[test]
fn schema_summary_languages() {
    assert!(get_db_schema_summary(true).starts_with("Base de datos SQLite local"));
    assert!(!get_db_schema_summary(false).starts_with("Base de datos SQLite local"));
}

#[test]
fn locale_language() {
    assert_eq!(language_for_locale(Some("es-MX")), Language::Es);
    assert_eq!(language_for_locale(Some("ES")), Language::Es);
    assert_eq!(language_for_locale(Some("en-US")), Language::En);
    assert_eq!(language_for_locale(Some("e")), Language::En);
    assert_eq!(language_for_locale(None), Language::En);
}

fn tables() -> (Vec<(String, String)>, Vec<(String, String)>) {
    (
        vec![(s("greeting"), s("hola")), (s("only_es"), s("solo"))],
        vec![(s("greeting"), s("hello")), (s("only_en"), s("only english"))],
    )
}

#[test]
fn translation_order() {
    let db = sample_db();
    let (es, en) = tables();
    let mut i = I18n::init(Language::Es, es, en);
    assert_eq!(i.current_language(), Language::Es);
    assert_eq!(i.t(&db, "SheepBall"), "Lamball_es");
    assert_eq!(i.t(&db, "Legend"), "Leyenda (Ataque +20%)");
    assert_eq!(i.t(&db, "Wool"), "Lana");
    assert_eq!(i.t(&db, "greeting"), "hola");
    assert_eq!(i.t(&db, "only_en"), "only english");
    assert_eq!(i.t(&db, "missing_key"), "missing_key");
    i.set_language(Language::En);
    assert_eq!(i.current_language(), Language::En);
    assert_eq!(i.t(&db, "greeting"), "hello");
    assert_eq!(i.t(&db, "only_es"), "solo");
}

#[test]
fn recipe_tool_text() {
    let db = sample_db();
    assert_eq!(
        recipe_text(&db, "PalSphere", false),
        "Recipe for Pal Sphere:\n  - Paldium: 1\n  - Wood: 3\n"
    );
    assert_eq!(
        recipe_text(&db, "PalSphere", true),
        "Receta para Esfera Pal:\n  - Paldium: 1\n  - Madera: 3\n"
    );
    assert_eq!(recipe_text(&db, "Nothing", false), "No recipe found for: Nothing");
    assert_eq!(
        recipe_text(&db, "", false),
        "Known items with recipes: palsphere, palsphere_mega, palsphere_giga"
    );
}

#[test]
fn skill_tool_text() {
    let db = sample_db();
    assert_eq!(
        skill_text(&db, "AirCanon", false),
        "Skill: Air Cannon\n  - Power: 25\n  - Cooldown: 2s\n  - Element: Neutral"
    );
    assert_eq!(
        skill_text(&db, "AirCanon", true),
        "Habilidad: Cañón de Aire\n  - Poder: 25\n  - Tiempo de Recarga: 2s\n  - Elemento: Neutral"
    );
    assert_eq!(skill_text(&db, "Zap", true), "Habilidad desconocida: Zap");
}

#[test]
fn breeding_path_found_and_rebuilt() {
    let db = sample_db();
    let avail = vec![s("Lamball"), s("Anubis")];
    let plan = find_breeding_path(&db, &avail, "Cattiva", false);
    assert_eq!(plan, Some(vec![(s("Lamball"), s("Anubis"), s("Cattiva"))]));
    assert_eq!(find_breeding_path(&db, &avail, "Anubis", false), Some(vec![]));
    let tree = reconstruct_breeding_tree(
        &db,
        false,
        &vec![(s("Lamball"), s("Anubis"), s("Cattiva"))],
        0,
        &avail,
    );
    assert_eq!(tree, vec![(s("Lamball"), s("Anubis"), s("Cattiva"))]);
}

#[test]
fn breeding_path_unreachable() {
    let db = sample_db();
    let avail = vec![s("Lamball"), s("Chikipi")];
    assert_eq!(find_breeding_path(&db, &avail, "Anubis", false), None);
}

#[test]
fn combinations_sorted_by_child() {
    let db = sample_db();
    let males = vec![s("SheepBall"), s("Anubis")];
    let females = vec![s("ChickenPal"), s("PinkCat")];
    assert_eq!(
        breeding_combinations(&db, &males, &females, false),
        vec![
            (s("Anubis"), s("PinkCat"), s("Anubis"), 1015),
            (s("SheepBall"), s("PinkCat"), s("Cattiva"), 1465),
            (s("Anubis"), s("ChickenPal"), s("Cattiva"), 1035),
            (s("SheepBall"), s("ChickenPal"), s("Chikipi"), 1485),
        ]
    );
}

#[test]
fn breeding_powers_in_range() {
    let mut db = sample_db();
    assert!(breed_powers_fit(&db));
    db.pals.push(pal("Big", "Big", "Big", i32::MAX / 2, [0; 12]));
    assert!(breed_powers_fit(&db));
    db.pals.push(pal("Huge", "Huge", "Huge", i32::MAX / 2 + 1, [0; 12]));
    assert!(!breed_powers_fit(&db));
    db.pals.pop();
    db.pals.pop();
    db.pals.push(pal("Low", "Low", "Low", i32::MIN / 2, [0; 12]));
    assert!(breed_powers_fit(&db));
    db.pals.push(pal("Lower", "Lower", "Lower", i32::MIN / 2 - 1, [0; 12]));
    assert!(!breed_powers_fit(&db));
}

#[test]
fn target_breeding_tool_text() {
    let db = sample_db();
    let t = target_breeding_text(&db, "Anubis", false);
    assert!(t.starts_with("Parent combinations for Anubis:\n"));
    assert!(t.contains("  - Cattiva + Chikipi\n"));
    assert_eq!(target_breeding_text(&db, "Nobody", false), "No parent combinations found for: Nobody");
    assert_eq!(
        target_breeding_text(&db, "Nobody", true),
        "No se encontraron combinaciones de padres para: Nobody"
    );
}

#[test]
fn drops_tool_text() {
    let db = sample_db();
    assert_eq!(drops_text(&db, "SheepBall", "", false), "Drops of SheepBall:\n  - Wool: 100% (1-3)\n");
    assert_eq!(drops_text(&db, "SheepBall", "", true), "Objetos de SheepBall:\n  - Lana: 100% (1-3)\n");
    assert_eq!(drops_text(&db, "", "Wool", false), "Pals that drop Wool:\n  - Lamball\n  - Cattiva\n");
    assert_eq!(drops_text(&db, "Anubis", "", false), "No drops found for: Anubis");
    assert_eq!(drops_text(&db, "", "Gold", false), "No Pals drop: Gold");
    assert_eq!(drops_text(&db, "", "", false), "Give a pal_name or an item_name.");
}

#[test]
fn offered_tools() {
    let names = tool_names();
    assert_eq!(names.len(), 13);
    assert!(names.contains(&"query_target_breeding") && names.contains(&"query_drops"));
    for n in &names[..9] {
        assert!(palagent_ai::mcp::tool_to_command(n, "q").is_some(), "{}", n);
    }
}
