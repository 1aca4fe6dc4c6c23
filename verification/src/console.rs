//! The interactive console's decisions: what a typed line asks for (with the analyzer's
//! filter options and the messages they produce), and which pals an analyzer request
//! keeps.
use vstd::prelude::*;
use crate::analysis::{analysis_view, AnalysisView, GenderKind, PalAnalysis};
use crate::db::{append_text, owned, PalDb};
use crate::i18n::{translation, I18n};
use crate::server::{split_words, texts, words_from};
use crate::text::{has_sub, lowercase, text_contains, text_eq, to_lowercase};
use crate::world::decimal_value;

verus! {

/// A non-empty run of ASCII digits.
pub open spec fn all_digits(d: Seq<char>) -> bool {
    d.len() > 0 && forall|i: int| 0 <= i < d.len() ==> '0' <= #[trigger] d[i] <= '9'
}

/// The text without a leading `+`.
pub open spec fn unsigned_digits(s: Seq<char>) -> Seq<char> {
    if s.len() > 0 && s[0] == '+' {
        s.skip(1)
    } else {
        s
    }
}

/// The value of a text as `str::parse::<u32>` reads it: an optional `+` followed by at
/// least one ASCII digit, with a value that fits in 32 bits.
pub open spec fn u32_value(s: Seq<char>) -> Option<u32> {
    let d = unsigned_digits(s);
    if all_digits(d) && decimal_value(d) <= u32::MAX {
        Some(decimal_value(d) as u32)
    } else {
        None
    }
}

proof fn lemma_decimal_grows(d: Seq<char>, i: int)
    requires
        0 <= i <= d.len(),
        forall|k: int| 0 <= k < d.len() ==> '0' <= #[trigger] d[k] <= '9',
    ensures
        decimal_value(d.take(i)) <= decimal_value(d),
    decreases d.len() - i,
{
    if i < d.len() {
        lemma_decimal_grows(d, i + 1);
        assert(d.take(i + 1).drop_last() =~= d.take(i));
    } else {
        assert(d.take(i) =~= d);
    }
}

/// Reads a number as `str::parse::<u32>` does (see `u32_value`).
pub fn parse_u32(s: &str) -> (r: Option<u32>)
    ensures
        r == u32_value(s@),
{
    let cs = crate::text::chars_of(s);
    let start: usize = if cs.len() > 0 && cs[0] == '+' {
        1
    } else {
        0
    };
    let ghost d = unsigned_digits(s@);
    assert(d =~= cs@.skip(start as int));
    if start >= cs.len() {
        return None;
    }
    let mut v: u64 = 0;
    let mut i: usize = start;
    while i < cs.len()
        invariant
            cs@ == s@,
            d == cs@.skip(start as int),
            d == unsigned_digits(s@),
            start <= i <= cs@.len(),
            forall|k: int| start <= k < i ==> '0' <= #[trigger] cs@[k] <= '9',
            v == decimal_value(d.take(i - start)),
            v <= u32::MAX,
        decreases cs@.len() - i,
    {
        let c = cs[i];
        if !('0' <= c && c <= '9') {
            assert(d[i - start] == c);
            assert(!all_digits(d));
            return None;
        }
        proof {
            assert(d.take(i - start + 1).drop_last() =~= d.take(i - start));
            assert(d.take(i - start + 1).last() == c);
        }
        let digit = (c as u32 - 48) as u64;
        v = v * 10 + digit;
        if v > 0xffff_ffff {
            proof {
                if all_digits(d) {
                    lemma_decimal_grows(d, i - start + 1);
                    assert(decimal_value(d) > u32::MAX);
                }
            }
            return None;
        }
        i = i + 1;
    }
    assert(d.take(i - start) =~= d);
    Some(v as u32)
}

/// What the analyzer's options gave: the passive-skill filter, the gender filter, the
/// minimum level, and the messages about options it could not use, in order.
pub type OptionsView = (Option<Seq<char>>, Option<Seq<char>>, Option<u32>, Seq<Seq<char>>);

/// The message for an option given without its value.
pub open spec fn missing_value(option: Seq<char>) -> Seq<char> {
    "Error: Falta valor para "@ + option
}

/// The message for a word that is not an option.
pub open spec fn unknown_option(word: Seq<char>) -> Seq<char> {
    "Opción no reconocida: "@ + word
}

/// The analyzer's options read from word `idx` on: `--trait`, `--gender` and
/// `--min-level` take the next word (a later one overrides an earlier one; a
/// `--min-level` value that is not a number leaves the filter as it was); an option
/// without a following word, and any other word, add a message.
pub open spec fn read_options(ws: Seq<Seq<char>>, idx: int, st: OptionsView) -> OptionsView
    decreases ws.len() - idx,
{
    if idx < 0 || idx >= ws.len() {
        st
    } else {
        let w = ws[idx];
        if w == "--trait"@ || w == "--gender"@ || w == "--min-level"@ {
            if idx + 1 < ws.len() {
                let v = ws[idx + 1];
                let next = if w == "--trait"@ {
                    (Some(v), st.1, st.2, st.3)
                } else if w == "--gender"@ {
                    (st.0, Some(v), st.2, st.3)
                } else {
                    match u32_value(v) {
                        Some(n) => (st.0, st.1, Some(n), st.3),
                        None => st,
                    }
                };
                read_options(ws, idx + 2, next)
            } else {
                read_options(ws, idx + 1, (st.0, st.1, st.2, st.3.push(missing_value(w))))
            }
        } else {
            read_options(ws, idx + 1, (st.0, st.1, st.2, st.3.push(unknown_option(w))))
        }
    }
}

/// The words joined by single spaces.
pub open spec fn joined(ws: Seq<Seq<char>>) -> Seq<char>
    decreases ws.len(),
{
    if ws.len() == 0 {
        Seq::empty()
    } else if ws.len() == 1 {
        ws[0]
    } else {
        joined(ws.drop_last()) + seq![' '] + ws.last()
    }
}

/// A word that starts with `--`.
pub open spec fn is_option(w: Seq<char>) -> bool {
    w.len() >= 2 && w[0] == '-' && w[1] == '-'
}

/// An analyzer request: the player, the filters and the option messages.
#[derive(Debug, Clone)]
pub struct AnalyzerQuery {
    pub uid: String,
    pub trait_filter: Option<String>,
    pub gender_filter: Option<String>,
    pub min_level: Option<u32>,
    pub notes: Vec<String>,
}

/// What a console line asks for.
#[derive(Debug, Clone)]
pub enum ConsoleCommand {
    /// A line without words: prompt again.
    Blank,
    Help,
    Time,
    Settings,
    /// `chest` without a query: show its usage.
    ChestUsage,
    /// Search the chests for the query.
    Chest(String),
    /// A player's progress.
    Progress(String),
    /// A player's pals' condition.
    Monitor(String),
    Analyzer(AnalyzerQuery),
    /// The breeding team, or the way to breed the named pal.
    Breeding(Option<String>),
    CleanSeeds,
    /// `export` without a format and a path: show its usage.
    ExportUsage,
    /// Export in a format to a file.
    Export(String, String),
    Reload,
    Exit,
    Unknown,
}

/// The view of a console command.
pub enum CommandView {
    Blank,
    Help,
    Time,
    Settings,
    ChestUsage,
    Chest(Seq<char>),
    Progress(Seq<char>),
    Monitor(Seq<char>),
    Analyzer(Seq<char>, OptionsView),
    Breeding(Option<Seq<char>>),
    CleanSeeds,
    ExportUsage,
    Export(Seq<char>, Seq<char>),
    Reload,
    Exit,
    Unknown,
}

pub open spec fn opt_text(o: Option<String>) -> Option<Seq<char>> {
    match o {
        Some(s) => Some(s@),
        None => None,
    }
}

pub open spec fn command_view(c: ConsoleCommand) -> CommandView {
    match c {
        ConsoleCommand::Blank => CommandView::Blank,
        ConsoleCommand::Help => CommandView::Help,
        ConsoleCommand::Time => CommandView::Time,
        ConsoleCommand::Settings => CommandView::Settings,
        ConsoleCommand::ChestUsage => CommandView::ChestUsage,
        ConsoleCommand::Chest(q) => CommandView::Chest(q@),
        ConsoleCommand::Progress(u) => CommandView::Progress(u@),
        ConsoleCommand::Monitor(u) => CommandView::Monitor(u@),
        ConsoleCommand::Analyzer(q) => CommandView::Analyzer(
            q.uid@,
            (opt_text(q.trait_filter), opt_text(q.gender_filter), q.min_level, texts(q.notes@)),
        ),
        ConsoleCommand::Breeding(t) => CommandView::Breeding(opt_text(t)),
        ConsoleCommand::CleanSeeds => CommandView::CleanSeeds,
        ConsoleCommand::ExportUsage => CommandView::ExportUsage,
        ConsoleCommand::Export(f, p) => CommandView::Export(f@, p@),
        ConsoleCommand::Reload => CommandView::Reload,
        ConsoleCommand::Exit => CommandView::Exit,
        ConsoleCommand::Unknown => CommandView::Unknown,
    }
}

/// What a console line asks for, given the active player. The line is split into
/// whitespace-separated words; the first, lowercased, names the command (each has a
/// long and, for most, a one-letter name). A player-scoped command takes its player from
/// the second word, else the active player; `analyzer` does so only when the second
/// word is not an option.
pub open spec fn console_command(line: Seq<char>, active: Seq<char>) -> CommandView {
    let ws = words_from(line, 0);
    if ws.len() == 0 {
        CommandView::Blank
    } else {
        let c = lowercase(ws[0]);
        let second = if ws.len() >= 2 {
            ws[1]
        } else {
            active
        };
        if c == "help"@ || c == "h"@ {
            CommandView::Help
        } else if c == "time"@ || c == "t"@ {
            CommandView::Time
        } else if c == "settings"@ || c == "s"@ {
            CommandView::Settings
        } else if c == "chest"@ || c == "c"@ {
            if ws.len() < 2 {
                CommandView::ChestUsage
            } else {
                CommandView::Chest(joined(ws.skip(1)))
            }
        } else if c == "progress"@ || c == "p"@ {
            CommandView::Progress(second)
        } else if c == "monitor"@ || c == "m"@ {
            CommandView::Monitor(second)
        } else if c == "analyzer"@ || c == "a"@ {
            if ws.len() >= 2 && !is_option(ws[1]) {
                CommandView::Analyzer(ws[1], read_options(ws, 2, (None, None, None, Seq::empty())))
            } else {
                CommandView::Analyzer(active, read_options(ws, 1, (None, None, None, Seq::empty())))
            }
        } else if c == "breeding"@ || c == "b"@ {
            CommandView::Breeding(
                if ws.len() >= 2 {
                    Some(ws[1])
                } else {
                    None
                },
            )
        } else if c == "clean-seeds"@ {
            CommandView::CleanSeeds
        } else if c == "export"@ {
            if ws.len() < 3 {
                CommandView::ExportUsage
            } else {
                CommandView::Export(ws[1], ws[2])
            }
        } else if c == "reload"@ {
            CommandView::Reload
        } else if c == "exit"@ || c == "q"@ || c == "quit"@ {
            CommandView::Exit
        } else {
            CommandView::Unknown
        }
    }
}

fn join_words(ws: &Vec<String>, from: usize) -> (r: String)
    requires
        from < ws@.len(),
    ensures
        r@ == joined(texts(ws@).skip(from as int)),
{
    let n = ws.len();
    let mut out = owned(ws[from].as_str());
    let mut i = from + 1;
    proof {
        reveal_strlit(" ");
    }
    assert(texts(ws@).skip(from as int).take(1) =~= seq![ws@[from as int]@]);
    while i < n
        invariant
            n == ws@.len(),
            from < i <= ws@.len(),
            out@ == joined(texts(ws@).skip(from as int).take(i - from)),
        decreases ws@.len() - i,
    {
        let ghost t = texts(ws@).skip(from as int);
        let ghost k = i - from;
        assert(t.take(k + 1).drop_last() =~= t.take(k));
        assert(t.take(k + 1).last() == ws@[i as int]@);
        assert(t.take(k + 1).len() == k + 1);
        let ghost before = out@;
        proof {
            reveal_strlit(" ");
        }
        append_text(&mut out, " ");
        append_text(&mut out, ws[i].as_str());
        assert(" "@ =~= seq![' ']);
        assert(out@ =~= before + seq![' '] + ws@[i as int]@);
        assert(joined(t.take(k + 1)) == joined(t.take(k + 1).drop_last()) + seq![' '] + t.take(
            k + 1,
        ).last());
        i = i + 1;
    }
    assert(texts(ws@).skip(from as int).take(i - from) =~= texts(ws@).skip(from as int));
    out
}

fn read_options_exec(ws: &Vec<String>, start: usize) -> (r: (Option<String>, Option<String>, Option<u32>, Vec<String>))
    requires
        start <= ws@.len(),
    ensures
        (opt_text(r.0), opt_text(r.1), r.2, texts(r.3@)) == read_options(
            texts(ws@),
            start as int,
            (None, None, None, Seq::empty()),
        ),
{
    let ghost w = texts(ws@);
    let mut trait_filter: Option<String> = None;
    let mut gender_filter: Option<String> = None;
    let mut min_level: Option<u32> = None;
    let mut notes: Vec<String> = Vec::new();
    let mut idx = start;
    assert(texts(notes@) =~= Seq::<Seq<char>>::empty());
    while idx < ws.len()
        invariant
            w == texts(ws@),
            start <= idx <= ws@.len() + 1,
            read_options(w, start as int, (None, None, None, Seq::empty())) == read_options(
                w,
                idx as int,
                (opt_text(trait_filter), opt_text(gender_filter), min_level, texts(notes@)),
            ),
        decreases ws@.len() + 1 - idx,
    {
        let word = ws[idx].as_str();
        let ghost st = (opt_text(trait_filter), opt_text(gender_filter), min_level, texts(notes@));
        assert(w[idx as int] == word@);
        let is_trait = text_eq(word, "--trait");
        let is_gender = text_eq(word, "--gender");
        let is_level = text_eq(word, "--min-level");
        if is_trait || is_gender || is_level {
            if idx + 1 < ws.len() {
                let v = ws[idx + 1].as_str();
                assert(w[idx + 1] == v@);
                if is_trait {
                    trait_filter = Some(owned(v));
                } else if is_gender {
                    gender_filter = Some(owned(v));
                } else {
                    match parse_u32(v) {
                        Some(n) => {
                            min_level = Some(n);
                        },
                        None => {},
                    }
                }
                idx = idx + 2;
            } else {
                let mut m = owned("Error: Falta valor para ");
                append_text(&mut m, word);
                notes.push(m);
                assert(texts(notes@) =~= st.3.push(missing_value(word@)));
                idx = idx + 1;
            }
        } else {
            let mut m = owned("Opción no reconocida: ");
            append_text(&mut m, word);
            notes.push(m);
            assert(texts(notes@) =~= st.3.push(unknown_option(word@)));
            idx = idx + 1;
        }
    }
    (trait_filter, gender_filter, min_level, notes)
}

/// What a console line asks for (see `console_command`).
pub fn console_command_of(line: &str, active: &str) -> (r: ConsoleCommand)
    ensures
        command_view(r) == console_command(line@, active@),
{
    let ws = split_words(line);
    let ghost w = words_from(line@, 0);
    assert(texts(ws@) == w);
    if ws.len() == 0 {
        return ConsoleCommand::Blank;
    }
    assert(w[0] == ws@[0]@);
    let lc = to_lowercase(ws[0].as_str());
    let c = lc.as_str();
    let second = if ws.len() >= 2 {
        assert(w[1] == ws@[1]@);
        owned(ws[1].as_str())
    } else {
        owned(active)
    };
    if text_eq(c, "help") || text_eq(c, "h") {
        ConsoleCommand::Help
    } else if text_eq(c, "time") || text_eq(c, "t") {
        ConsoleCommand::Time
    } else if text_eq(c, "settings") || text_eq(c, "s") {
        ConsoleCommand::Settings
    } else if text_eq(c, "chest") || text_eq(c, "c") {
        if ws.len() < 2 {
            ConsoleCommand::ChestUsage
        } else {
            ConsoleCommand::Chest(join_words(&ws, 1))
        }
    } else if text_eq(c, "progress") || text_eq(c, "p") {
        ConsoleCommand::Progress(second)
    } else if text_eq(c, "monitor") || text_eq(c, "m") {
        ConsoleCommand::Monitor(second)
    } else if text_eq(c, "analyzer") || text_eq(c, "a") {
        let named = if ws.len() >= 2 {
            let cs = crate::text::chars_of(ws[1].as_str());
            !(cs.len() >= 2 && cs[0] == '-' && cs[1] == '-')
        } else {
            false
        };
        let (uid, start) = if named {
            (second, 2usize)
        } else {
            (owned(active), 1usize)
        };
        let (trait_filter, gender_filter, min_level, notes) = read_options_exec(&ws, start);
        ConsoleCommand::Analyzer(AnalyzerQuery { uid, trait_filter, gender_filter, min_level, notes })
    } else if text_eq(c, "breeding") || text_eq(c, "b") {
        if ws.len() >= 2 {
            ConsoleCommand::Breeding(Some(second))
        } else {
            ConsoleCommand::Breeding(None)
        }
    } else if text_eq(c, "clean-seeds") {
        ConsoleCommand::CleanSeeds
    } else if text_eq(c, "export") {
        if ws.len() < 3 {
            ConsoleCommand::ExportUsage
        } else {
            assert(w[2] == ws@[2]@);
            ConsoleCommand::Export(owned(ws[1].as_str()), owned(ws[2].as_str()))
        }
    } else if text_eq(c, "reload") {
        ConsoleCommand::Reload
    } else if text_eq(c, "exit") || text_eq(c, "q") || text_eq(c, "quit") {
        ConsoleCommand::Exit
    } else {
        ConsoleCommand::Unknown
    }
}

/// The text of a key in the interface language (see `translation`).
pub open spec fn text_for(db: PalDb, i: I18n, key: Seq<char>) -> Seq<char> {
    translation(db, i.current, i.es@, i.en@, key)
}

/// Passive skill `k` matches a passive-skill filter: the filter, lowercased, occurs in the
/// lowercased skill id or in its lowercased translation.
pub open spec fn passive_hit(db: PalDb, i: I18n, passives: Seq<Seq<char>>, filter: Seq<char>, k: int) -> bool {
    has_sub(lowercase(passives[k]), lowercase(filter)) || has_sub(
        lowercase(text_for(db, i, passives[k])),
        lowercase(filter),
    )
}

/// Whether the analyzer lists a pal under a request's filters: at least the minimum
/// level; for a gender filter starting with `m` (in any case) a male, for any other a
/// female; and for a passive-skill filter, some passive skill that matches it.
pub open spec fn analyzer_keeps(
    db: PalDb,
    i: I18n,
    a: AnalysisView,
    trait_filter: Option<Seq<char>>,
    gender_filter: Option<Seq<char>>,
    min_level: Option<u32>,
) -> bool {
    &&& match min_level {
        Some(m) => a.1 >= m,
        None => true,
    }
    &&& match gender_filter {
        Some(g) => if lowercase(g).len() > 0 && lowercase(g)[0] == 'm' {
            a.2 == GenderKind::Male
        } else {
            a.2 == GenderKind::Female
        },
        None => true,
    }
    &&& match trait_filter {
        Some(t) => exists|k: int| 0 <= k < a.6.len() && #[trigger] passive_hit(db, i, a.6, t, k),
        None => true,
    }
}

/// Whether the analyzer lists a pal under a request's filters (see `analyzer_keeps`).
#[verifier::loop_isolation(false)]
pub fn analyzer_lists(db: &PalDb, i: &I18n, a: &PalAnalysis, q: &AnalyzerQuery) -> (r: bool)
    ensures
        r == analyzer_keeps(
            *db,
            *i,
            analysis_view(*a),
            opt_text(q.trait_filter),
            opt_text(q.gender_filter),
            q.min_level,
        ),
{
    if let Some(m) = q.min_level {
        if a.level < m {
            return false;
        }
    }
    if let Some(g) = &q.gender_filter {
        let lg = crate::text::chars_of(to_lowercase(g.as_str()).as_str());
        let wants_male = lg.len() > 0 && lg[0] == 'm';
        let ok = if wants_male {
            a.gender == GenderKind::Male
        } else {
            a.gender == GenderKind::Female
        };
        if !ok {
            return false;
        }
    }
    if let Some(t) = &q.trait_filter {
        let lt = to_lowercase(t.as_str());
        let ghost ps = texts(a.passives@);
        let mut k: usize = 0;
        while k < a.passives.len()
            invariant
                k <= a.passives@.len(),
                ps == texts(a.passives@),
                lt@ == lowercase(t@),
                forall|j: int| 0 <= j < k ==> !#[trigger] passive_hit(*db, *i, ps, t@, j),
            decreases a.passives@.len() - k,
        {
            let p = a.passives[k].as_str();
            assert(ps[k as int] == p@);
            let lp = to_lowercase(p);
            let name = i.t(db, p);
            let ln = to_lowercase(name.as_str());
            if text_contains(lp.as_str(), lt.as_str()) || text_contains(ln.as_str(), lt.as_str()) {
                let ghost av = analysis_view(*a);
                assert(av.6 == ps);
                assert(opt_text(q.trait_filter)->0 == t@);
                assert(passive_hit(*db, *i, av.6, opt_text(q.trait_filter)->0, k as int));
                return true;
            }
            k = k + 1;
        }
        return false;
    }
    true
}

} // verus!
