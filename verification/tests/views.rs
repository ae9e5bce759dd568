use zk_tui::commands::specs;
use zk_tui::doc::{plain, span, Block, Hue, Kind, Span, Tone};
use zk_tui::views::{
    about, caution, examples, facts, help, list, names, run_error, running, shortcut_keys, step_doc, welcome, AboutTexts, CatalogFacts, CatalogTexts, Deployment,
    ExampleFacts, ExamplesTexts, ListTexts, ListedSystem, Paper, RunFailure, RunTexts, StepFacts, StepTexts, SystemSummary, WelcomeTexts,
};

fn text(spans: &[Span]) -> String {
    spans.iter().map(|s| s.text.as_str()).collect()
}

fn words(list: &[&str]) -> Vec<String> {
    list.iter().map(|w| w.to_string()).collect()
}

#[test]
fn help_lists_every_command_with_its_summary() {
    let summaries: Vec<String> = specs().iter().map(|spec| format!("about {}", spec.name)).collect();
    let entry = help("Commands", &summaries, "Press ? for shortcuts.");
    assert_eq!(entry.kind, Kind::Result);
    assert_eq!(entry.doc.blocks.len(), 3);
    match &entry.doc.blocks[1] {
        Block::Table(table) => {
            assert_eq!(table.rows.len(), specs().len());
            assert_eq!(text(&table.rows[1][0]), "/list [shelf]");
            assert_eq!(text(&table.rows[1][1]), "about /list");
            assert_eq!(table.rows[1][1][0].tone.hue, Hue::Secondary);
            assert!(table.wrap);
        }
        other => panic!("expected a table, got {other:?}"),
    }
}

#[test]
fn the_shortcut_box_explains_eleven_keys() {
    let keys = shortcut_keys();
    assert_eq!(keys.len(), 11);
    assert_eq!(keys[0], "enter");
    assert_eq!(keys[10], "shift+drag");
}

#[test]
fn the_welcome_box_lines_up_the_commands_to_try() {
    let texts = WelcomeTexts {
        tagline: "A museum of zero-knowledge proofs.".to_string(),
        list: "the systems on the shelves".to_string(),
        examples: "what they prove".to_string(),
        run_all: "run every system".to_string(),
        lang: "한국어로".to_string(),
    };
    let entry = welcome("0.1.0", &texts, Some("No proof systems are built into this binary yet."));
    assert_eq!(entry.kind, Kind::Welcome);
    match &entry.doc.blocks[0] {
        Block::Boxed(lines) => {
            let shown: Vec<String> = lines.iter().map(|l| text(l)).collect();
            assert_eq!(shown[0], "nmtzk v0.1.0");
            assert_eq!(shown[3], format!("/list{}the systems on the shelves", " ".repeat(18)));
            assert_eq!(shown[5], "/run all one-plus-one  run every system");
            assert_eq!(shown[7], format!("/lang ko{}한국어로", " ".repeat(15)));
            assert_eq!(shown[9], "⚠ No proof systems are built into this binary yet.");
            assert_eq!(lines[9][0].tone.hue, Hue::Caution);
            assert_eq!(shown.len(), 10);
        }
        other => panic!("expected a box, got {other:?}"),
    }
    let built = welcome("0.1.0", &texts, None);
    match &built.doc.blocks[0] {
        Block::Boxed(lines) => assert_eq!(lines.len(), 8, "no caution when systems are built in"),
        other => panic!("expected a box, got {other:?}"),
    }
}

#[test]
fn long_input_lists_are_shortened() {
    let many = "{first} … {last} ({count} names)";
    assert_eq!(names(&words(&["a", "b", "c", "d", "e"]), many), "a, b … e (5 names)");
    assert_eq!(names(&words(&["x", "y"]), many), "x, y");
    assert_eq!(names(&Vec::new(), many), "");
}

#[test]
fn examples_pad_their_ids_and_list_their_inputs() {
    let list = vec![
        ExampleFacts {
            id: "one-plus-one".to_string(),
            statement: "1 + 1 = 2".to_string(),
            public: words(&["sum"]),
            private: words(&["a", "b"]),
        },
        ExampleFacts {
            id: "sudoku".to_string(),
            statement: "a solved grid".to_string(),
            public: words(&["clue"]),
            private: (0..81).map(|i| format!("cell{i}")).collect(),
        },
    ];
    let texts = ExamplesTexts {
        title: "Examples".to_string(),
        inputs: "public: {public} · private: {private}".to_string(),
        many: "{first} … {last} ({count})".to_string(),
        toy_hash: "toy hash".to_string(),
    };
    let entry = examples(&list, &texts);
    let blocks = &entry.doc.blocks;
    assert_eq!(blocks.len(), 8);
    match &blocks[2] {
        Block::Text { lead, body, .. } => {
            assert_eq!(text(lead), "one-plus-one  ");
            assert_eq!(text(body), "1 + 1 = 2");
            assert!(lead[0].tone.bold);
        }
        other => panic!("expected text, got {other:?}"),
    }
    match &blocks[5] {
        Block::Text { lead, body, .. } => {
            assert_eq!(text(lead), " ".repeat(14));
            assert_eq!(text(body), "public: clue · private: cell0, cell1 … cell80 (81)");
        }
        other => panic!("expected text, got {other:?}"),
    }
    assert_eq!(blocks[6], Block::Blank);
}

#[test]
fn a_caution_is_yellow() {
    let line = caution("careful");
    assert_eq!(text(&line), "⚠ careful");
    assert!(line.iter().all(|s| s.tone.hue == Hue::Caution));
}

#[test]
fn a_page_carries_its_title_and_source() {
    let page = zk_tui::views::Page { title: "Groth16".to_string(), markdown: "# Groth16\n" };
    assert_eq!(page.clone(), page);
    assert_eq!(page.markdown, "# Groth16\n");
}

fn s(text: &str) -> String {
    text.to_string()
}

fn catalog_texts() -> CatalogTexts {
    CatalogTexts {
        paper: s("paper"),
        setup: s("setup"),
        zero_knowledge: s("zk"),
        assumptions: s("assumptions"),
        post_quantum: s("post-quantum"),
        proof_size: s("proof size"),
        recursion: s("recursion"),
        mode: s("mode"),
        field: s("field"),
        code: s("code"),
        status: s("status"),
        used_in: s("used in"),
        paper_line: s("{title}, {venue}"),
        yes: s("yes"),
        no: s("no"),
        deployment_range: s("{project} ({since}–{until})"),
        deployment_since: s("{project} (since {since})"),
    }
}

#[test]
fn facts_list_every_label_with_the_paper_first_and_deployments_last() {
    let meta = CatalogFacts {
        paper: Some(Paper { title: s("On the Size of Pairing-based Non-interactive Arguments"), venue: s("EUROCRYPT 2016"), url: s("https://eprint.iacr.org/2016/260") }),
        setup: vec![plain("per circuit")],
        zero_knowledge: vec![span("yes", Tone::of(Hue::Success))],
        assumptions: words(&["pairings", "knowledge of exponent"]),
        post_quantum: false,
        proof_size: s("constant"),
        recursion: s("with a cycle of curves"),
        mode: s("circuit"),
        field: s("BN254 scalar"),
        code: vec![plain("ark-groth16")],
        status: s("active as of 2025"),
        deployments: vec![
            Deployment { project: s("Zcash Sapling"), since: s("2018"), until: None },
            Deployment { project: s("Zcash Sprout"), since: s("2016"), until: Some(s("2018")) },
        ],
    };
    let pairs = facts(&meta, &catalog_texts());
    let labels: Vec<&str> = pairs.iter().map(|(label, _)| label.as_str()).collect();
    assert_eq!(labels, ["paper", "setup", "zk", "assumptions", "post-quantum", "proof size", "recursion", "mode", "field", "code", "status", "used in"]);
    assert_eq!(text(&pairs[0].1), "On the Size of Pairing-based Non-interactive Arguments, EUROCRYPT 2016 (https://eprint.iacr.org/2016/260)");
    assert_eq!(pairs[0].1[1].tone.hue, Hue::Accent);
    assert_eq!(text(&pairs[3].1), "pairings, knowledge of exponent");
    assert_eq!(text(&pairs[4].1), "no");
    assert_eq!(pairs[2].1[0].tone.hue, Hue::Success);
    assert_eq!(text(&pairs[11].1), "Zcash Sapling (since 2018); Zcash Sprout (2016–2018)");

    let bare = CatalogFacts { paper: None, deployments: Vec::new(), post_quantum: true, ..meta };
    let pairs = facts(&bare, &catalog_texts());
    assert_eq!(pairs.len(), 10);
    assert_eq!(pairs[0].0, "setup");
    assert_eq!(text(&pairs[3].1), "yes");
}

#[test]
fn a_step_shows_what_was_tried_what_the_ledger_did_and_the_pool_after() {
    let texts = StepTexts { verifier: s("verifier: {verdict}"), broken: s("breaks: {labels}"), after: s("pool {pool}, attacker {attacker}, {nullifiers} nullifiers") };
    let step = StepFacts {
        action: s("respend a spent note"),
        circuit: s("honest circuit"),
        outcome: s("refused: nullifier already spent"),
        recorded: false,
        forgery: true,
        verdict: Some(s("accepted")),
        violated: words(&["nullifier unique", "balance"]),
        pool_balance: 1_234_567,
        attacker_balance: 0,
        nullifiers: 3,
    };
    let doc = step_doc(12, &step, &texts);
    assert_eq!(doc.blocks.len(), 5);
    let lines: Vec<(String, String, Hue)> = doc
        .blocks
        .iter()
        .map(|block| match block {
            Block::Text { lead, body, .. } => (text(lead), text(body), body[0].tone.hue),
            other => panic!("expected text, got {other:?}"),
        })
        .collect();
    assert_eq!(lines[0].0, "12. ");
    assert_eq!(lines[0].1, "respend a spent note · honest circuit");
    assert_eq!(lines[1].0, "    ✓ ");
    assert_eq!(lines[1].2, Hue::Body);
    assert_eq!(lines[2].1, "verifier: accepted");
    assert_eq!(lines[3].1, "breaks: nullifier unique; balance");
    assert_eq!(lines[4], (s("    "), s("pool 1,234,567, attacker 0, 3 nullifiers"), Hue::Secondary));

    let recorded = StepFacts { recorded: true, verdict: None, violated: Vec::new(), ..step };
    let doc = step_doc(1, &recorded, &texts);
    assert_eq!(doc.blocks.len(), 3);
    match &doc.blocks[1] {
        Block::Text { lead, body, .. } => {
            assert_eq!(text(lead), "   ✗ ");
            assert_eq!(body[0].tone.hue, Hue::Failure);
        }
        other => panic!("expected text, got {other:?}"),
    }
}

fn about_texts() -> AboutTexts {
    AboutTexts {
        not_built: s("{system} is not built into this binary."),
        page: s("Press p to open its page."),
        no_page: s("{system} has no page yet."),
        unknown: s("Unknown system: {system}"),
    }
}

fn summary() -> SystemSummary {
    SystemSummary {
        name: s("Groth16"),
        shelf: s("Zcash"),
        year: 2016,
        authors: words(&["Jens Groth"]),
        cautions: vec![caution("needs a trusted setup")],
        facts: CatalogFacts {
            paper: None,
            setup: vec![plain("per circuit")],
            zero_knowledge: vec![plain("yes")],
            assumptions: words(&["pairings"]),
            post_quantum: false,
            proof_size: s("constant"),
            recursion: s("no"),
            mode: s("circuit"),
            field: s("BN254"),
            code: vec![plain("ark-groth16")],
            status: s("active"),
            deployments: Vec::new(),
        },
    }
}

#[test]
fn about_shows_a_summary_and_the_page_to_open() {
    let system = summary();
    let (entry, page) = about("groth16", Some(&system), Some("# Groth16\n"), &catalog_texts(), &about_texts());
    assert_eq!(entry.kind, Kind::Result);
    let page = page.expect("a page");
    assert_eq!(page.title, "Groth16");
    assert_eq!(page.markdown, "# Groth16\n");
    let lines: Vec<String> = entry
        .doc
        .blocks
        .iter()
        .map(|block| match block {
            Block::Text { lead, body, .. } => format!("{}{}", text(lead), text(body)),
            Block::Blank => String::new(),
            other => panic!("unexpected block {other:?}"),
        })
        .collect();
    assert_eq!(lines[0], "Groth16  Zcash · 2016");
    assert_eq!(lines[1], "Jens Groth");
    assert_eq!(lines[2], "⚠ needs a trusted setup");
    assert_eq!(lines[3], format!("├ {:<14}per circuit", "setup"));
    assert_eq!(lines[12], format!("└ {:<14}active", "status"));
    assert_eq!(lines[13], "");
    assert_eq!(lines[14], "Press p to open its page.");
    assert_eq!(lines.len(), 15);

    let (entry, page) = about("groth16", Some(&system), None, &catalog_texts(), &about_texts());
    assert!(page.is_none());
    match entry.doc.blocks.last() {
        Some(Block::Text { body, .. }) => assert_eq!(text(body), "Groth16 has no page yet."),
        other => panic!("unexpected block {other:?}"),
    }
}

#[test]
fn about_a_page_without_its_system_or_an_unknown_id() {
    let (entry, page) = about("nova", None, Some("# Nova\n"), &catalog_texts(), &about_texts());
    assert_eq!(entry.kind, Kind::Result);
    assert_eq!(page.map(|p| p.title), Some(s("nova")));
    match &entry.doc.blocks[0] {
        Block::Text { body, .. } => assert_eq!(text(body), "nova is not built into this binary."),
        other => panic!("unexpected block {other:?}"),
    }
    let (entry, page) = about("nope", None, None, &catalog_texts(), &about_texts());
    assert_eq!(entry.kind, Kind::Error);
    assert!(page.is_none());
    match &entry.doc.blocks[0] {
        Block::Text { body, .. } => assert_eq!(text(body), "Unknown system: nope"),
        other => panic!("unexpected block {other:?}"),
    }
}

fn listed(shelf: usize, id: &str, year: u64) -> ListedSystem {
    ListedSystem {
        shelf,
        id: s(id),
        name: id.to_uppercase(),
        year,
        setup: vec![plain("universal")],
        zero_knowledge: caution("no"),
        proof_size: s("small"),
        code: vec![plain("upstream")],
    }
}

fn list_texts() -> ListTexts {
    ListTexts {
        title: s("{count} systems"),
        shelf_empty: s("Nothing on the {shelf} shelf yet."),
        footer: s("Type /about <id> for more."),
        columns: words(&["id", "name", "year", "setup", "zk", "proof", "code"]),
        no_systems: s("No systems are built in."),
        no_systems_detail: s("Build with a feature to add some."),
    }
}

fn block_texts(blocks: &[Block]) -> Vec<String> {
    blocks
        .iter()
        .map(|block| match block {
            Block::Text { lead, body, .. } => format!("{}{}", text(lead), text(body)),
            Block::Blank => String::new(),
            Block::Table(table) => format!("table of {} rows", table.rows.len()),
            other => panic!("unexpected block {other:?}"),
        })
        .collect()
}

#[test]
fn list_shows_every_shelf_with_systems_or_the_one_asked_for() {
    let systems = vec![listed(0, "groth16", 2016), listed(2, "plonk", 2019), listed(0, "pghr13", 2013)];
    let shelves = words(&["Zcash", "Aztec", "Others"]);
    let entry = list(&systems, &shelves, None, &list_texts());
    assert_eq!(entry.kind, Kind::Result);
    assert_eq!(
        block_texts(&entry.doc.blocks),
        ["3 systems", "", "Zcash", "table of 2 rows", "", "", "Others", "table of 1 rows", "", "Type /about <id> for more."]
    );
    match &entry.doc.blocks[3] {
        Block::Table(table) => {
            assert_eq!(text(&table.rows[1][0]), "pghr13");
            assert_eq!(text(&table.rows[1][2]), "2013");
            assert_eq!(table.optional, [2, 5]);
            assert!(!table.wrap);
            assert_eq!(table.header.len(), 7);
        }
        other => panic!("expected a table, got {other:?}"),
    }
    let entry = list(&systems, &shelves, Some(1), &list_texts());
    assert_eq!(block_texts(&entry.doc.blocks), ["0 systems", "", "Nothing on the Aztec shelf yet.", "", "Type /about <id> for more."]);
    let entry = list(&Vec::new(), &shelves, None, &list_texts());
    assert_eq!(block_texts(&entry.doc.blocks), ["No systems are built in.", "└ Build with a feature to add some."]);
}

fn run_texts() -> RunTexts {
    RunTexts {
        unsupported: s("{system} cannot run {example}: {reason}."),
        stopped_after: s("{system} stopped after {stage}."),
        stopped_before: s("{system} stopped before {example} began."),
        failed: s("{system} failed while {stage}: {error}"),
        no_randomness: s("No randomness: {why}"),
    }
}

fn only_line(entry: &zk_tui::doc::Entry) -> String {
    assert_eq!(entry.doc.blocks.len(), 1);
    match &entry.doc.blocks[0] {
        Block::Text { body, .. } => text(body),
        other => panic!("unexpected block {other:?}"),
    }
}

#[test]
fn a_run_in_progress_and_a_run_without_a_report() {
    let entry = running("Groth16", "one-plus-one", "{system} is proving {example}…");
    assert_eq!(entry.kind, Kind::Running);
    assert_eq!(only_line(&entry), "Groth16 is proving one-plus-one…");

    let texts = run_texts();
    let entry = run_error("Halo2", "sudoku", &RunFailure::Unsupported { reason: s("no-lookup_tables") }, &texts);
    assert_eq!(entry.kind, Kind::Warning);
    assert_eq!(only_line(&entry), "Halo2 cannot run sudoku: no lookup tables.");
    let entry = run_error("Halo2", "sudoku", &RunFailure::Cancelled { after: Some(s("setup")) }, &texts);
    assert_eq!((entry.kind, only_line(&entry)), (Kind::Warning, s("Halo2 stopped after setup.")));
    let entry = run_error("Halo2", "sudoku", &RunFailure::Cancelled { after: None }, &texts);
    assert_eq!((entry.kind, only_line(&entry)), (Kind::Warning, s("Halo2 stopped before sudoku began.")));
    let entry = run_error("Halo2", "sudoku", &RunFailure::Failed { stage: s("proving"), error: s("out of memory") }, &texts);
    assert_eq!((entry.kind, only_line(&entry)), (Kind::Error, s("Halo2 failed while proving: out of memory")));
    let entry = run_error("Halo2", "sudoku", &RunFailure::Randomness(s("no entropy")), &texts);
    assert_eq!((entry.kind, only_line(&entry)), (Kind::Error, s("No randomness: no entropy")));
}
