use palagent_ai::analysis::{GenderKind, PalAnalysis};
use palagent_ai::console::{analyzer_lists, console_command_of, parse_u32, AnalyzerQuery, ConsoleCommand};
use palagent_ai::db::{PalDb, PassiveRow};
use palagent_ai::i18n::{I18n, Language};
use palagent_ai::setup::{codex_config, forward_slashes};

fn s(x: &str) -> String {
    x.to_string()
}

#[test]
fn numbers_as_parse_reads_them() {
    assert_eq!(parse_u32("42"), Some(42));
    assert_eq!(parse_u32("+7"), Some(7));
    assert_eq!(parse_u32("007"), Some(7));
    assert_eq!(parse_u32("4294967295"), Some(4294967295));
    assert_eq!(parse_u32("4294967296"), None);
    assert_eq!(parse_u32("99999999999999999999999"), None);
    assert_eq!(parse_u32(""), None);
    assert_eq!(parse_u32("+"), None);
    assert_eq!(parse_u32("-1"), None);
    assert_eq!(parse_u32("1a"), None);
    assert_eq!(parse_u32(" 1"), None);
    for text in ["0", "15", "+3", "x", "4294967296", "١"] {
        assert_eq!(parse_u32(text), text.parse::<u32>().ok(), "{}", text);
    }
}

#[test]
fn simple_console_commands() {
    assert!(matches!(console_command_of("   \n", "U"), ConsoleCommand::Blank));
    assert!(matches!(console_command_of("HELP\n", "U"), ConsoleCommand::Help));
    assert!(matches!(console_command_of("h", "U"), ConsoleCommand::Help));
    assert!(matches!(console_command_of("T", "U"), ConsoleCommand::Time));
    assert!(matches!(console_command_of("settings", "U"), ConsoleCommand::Settings));
    assert!(matches!(console_command_of("clean-seeds", "U"), ConsoleCommand::CleanSeeds));
    assert!(matches!(console_command_of("reload", "U"), ConsoleCommand::Reload));
    assert!(matches!(console_command_of("quit", "U"), ConsoleCommand::Exit));
    assert!(matches!(console_command_of("Q", "U"), ConsoleCommand::Exit));
    assert!(matches!(console_command_of("dance now", "U"), ConsoleCommand::Unknown));
}

#[test]
fn chest_and_export_words() {
    assert!(matches!(console_command_of("chest", "U"), ConsoleCommand::ChestUsage));
    match console_command_of("  c   Pal   Sphere \n", "U") {
        ConsoleCommand::Chest(q) => assert_eq!(q, "Pal Sphere"),
        other => panic!("{:?}", other),
    }
    assert!(matches!(console_command_of("export json", "U"), ConsoleCommand::ExportUsage));
    match console_command_of("export CSV out.csv extra", "U") {
        ConsoleCommand::Export(f, p) => assert_eq!((f.as_str(), p.as_str()), ("CSV", "out.csv")),
        other => panic!("{:?}", other),
    }
}

#[test]
fn player_scoped_commands() {
    match console_command_of("progress", "ACTIVE") {
        ConsoleCommand::Progress(u) => assert_eq!(u, "ACTIVE"),
        other => panic!("{:?}", other),
    }
    match console_command_of("m OTHER", "ACTIVE") {
        ConsoleCommand::Monitor(u) => assert_eq!(u, "OTHER"),
        other => panic!("{:?}", other),
    }
    match console_command_of("breeding Anubis", "ACTIVE") {
        ConsoleCommand::Breeding(t) => assert_eq!(t.as_deref(), Some("Anubis")),
        other => panic!("{:?}", other),
    }
    assert!(matches!(console_command_of("b", "ACTIVE"), ConsoleCommand::Breeding(None)));
}

fn analyzer(line: &str) -> AnalyzerQuery {
    match console_command_of(line, "ACTIVE") {
        ConsoleCommand::Analyzer(q) => q,
        other => panic!("{:?}", other),
    }
}

#[test]
fn analyzer_options_and_messages() {
    let q = analyzer("a");
    assert_eq!(q.uid, "ACTIVE");
    assert_eq!((q.trait_filter, q.gender_filter, q.min_level), (None, None, None));
    assert!(q.notes.is_empty());

    let q = analyzer("analyzer P1 --trait Legend --gender f --min-level 10");
    assert_eq!(q.uid, "P1");
    assert_eq!(q.trait_filter.as_deref(), Some("Legend"));
    assert_eq!(q.gender_filter.as_deref(), Some("f"));
    assert_eq!(q.min_level, Some(10));

    let q = analyzer("a --min-level 5 --min-level x --bogus --trait");
    assert_eq!(q.uid, "ACTIVE");
    assert_eq!(q.min_level, Some(5));
    assert_eq!(q.notes, vec![s("Opción no reconocida: --bogus"), s("Error: Falta valor para --trait")]);
}

fn db() -> PalDb {
    PalDb {
        pals: vec![],
        passives: vec![PassiveRow {
            internal_id: s("Legend"),
            name_en: s("Legend"),
            name_es: s("Leyenda"),
            description_en: s(""),
            description_es: s(""),
        }],
        items: vec![],
        exceptions: vec![],
        skills: vec![],
        recipes: vec![],
        drops: vec![],
    }
}

fn pal(level: u32, gender: GenderKind, passives: &[&str]) -> PalAnalysis {
    PalAnalysis {
        pal_id: s("SheepBall"),
        level,
        gender,
        iv_hp: 1,
        iv_attack: 2,
        iv_defense: 3,
        passives: passives.iter().map(|p| s(p)).collect(),
    }
}

fn query(t: Option<&str>, g: Option<&str>, min: Option<u32>) -> AnalyzerQuery {
    AnalyzerQuery { uid: s("U"), trait_filter: t.map(s), gender_filter: g.map(s), min_level: min, notes: vec![] }
}

#[test]
fn analyzer_filters() {
    let d = db();
    let i = I18n::init(Language::Es, vec![], vec![]);
    let male = pal(12, GenderKind::Male, &["Legend"]);
    let female = pal(3, GenderKind::Female, &[]);
    assert!(analyzer_lists(&d, &i, &male, &query(None, None, None)));
    assert!(analyzer_lists(&d, &i, &male, &query(None, None, Some(12))));
    assert!(!analyzer_lists(&d, &i, &male, &query(None, None, Some(13))));
    assert!(analyzer_lists(&d, &i, &male, &query(None, Some("Macho"), None)));
    assert!(!analyzer_lists(&d, &i, &female, &query(None, Some("M"), None)));
    assert!(analyzer_lists(&d, &i, &female, &query(None, Some("x"), None)));
    assert!(!analyzer_lists(&d, &i, &pal(3, GenderKind::Unknown, &[]), &query(None, Some("f"), None)));
    assert!(analyzer_lists(&d, &i, &male, &query(Some("LEG"), None, None)));
    assert!(analyzer_lists(&d, &i, &male, &query(Some("leyen"), None, None)));
    assert!(!analyzer_lists(&d, &i, &male, &query(Some("swift"), None, None)));
    assert!(!analyzer_lists(&d, &i, &female, &query(Some(""), None, None)));
}

#[test]
fn codex_section_added_once() {
    let once = codex_config("model = \"x\"\n", "C:/Users/me/palagent-ai.exe").unwrap();
    assert_eq!(
        once,
        "model = \"x\"\n\n[mcp_servers.palagent-ai]\ncommand = \"C:/Users/me/palagent-ai.exe\"\nargs = [\"mcp\"]\n"
    );
    assert_eq!(codex_config(&once, "other"), None);
}

#[test]
fn backslashes_become_slashes() {
    assert_eq!(forward_slashes("C:\\Users\\me\\a.exe"), "C:/Users/me/a.exe");
    assert_eq!(forward_slashes("plain/path"), "plain/path");
    assert_eq!(forward_slashes(""), "");
}
