use zk_tui::commands::specs;
use zk_tui::complete::{candidates, rank, Offers};

fn pairs(list: &[(&str, &str)]) -> Vec<(String, String)> {
    list.iter().map(|(a, b)| (a.to_string(), b.to_string())).collect()
}

fn offers(systems: &[(&str, &str)]) -> Offers {
    Offers {
        systems: pairs(systems),
        all: "every system".to_string(),
        examples: pairs(&[("one-plus-one", "1 + 1 = 2"), ("sudoku", "a solved grid"), ("factoring", "n = p × q")]),
        shelves: pairs(&[("zcash", "Zcash"), ("aztec", "Aztec"), ("ethereum", "Ethereum")]),
        languages: pairs(&[("en", "English"), ("ko", "한국어")]),
        summaries: specs().iter().map(|spec| format!("about {}", spec.name)).collect(),
    }
}

fn lines(input: &str) -> Vec<String> {
    candidates(input, &offers(&[])).into_iter().map(|c| c.line).collect()
}

#[test]
fn a_bare_slash_offers_every_command_in_order() {
    let all = lines("/");
    assert_eq!(all.len(), specs().len());
    assert_eq!(all[0], "/help");
    assert_eq!(all[4], "/run ");
}

#[test]
fn typing_filters_by_subsequence_with_prefixes_first() {
    assert_eq!(lines("/ex"), ["/examples"]);
    let l = lines("/l");
    assert_eq!(&l[..2], ["/list ", "/lang "]);
    assert!(l.contains(&"/help".to_string()), "subsequence matches follow: {l:?}");
}

#[test]
fn arguments_complete_in_their_position() {
    assert_eq!(lines("/run ")[0], "/run all ");
    assert_eq!(lines("/run all one"), ["/run all one-plus-one"]);
    assert_eq!(lines("/lang k"), ["/lang ko"]);
    assert_eq!(lines("/list zc"), ["/list zcash", "/list aztec"]);
    assert_eq!(lines("/list zca"), ["/list zcash"]);
    assert!(lines("/about ").is_empty(), "an empty museum has no systems to offer");
    assert!(lines("/help ").is_empty());
    assert!(lines("hello").is_empty());
}

#[test]
fn systems_are_offered_with_their_details() {
    let museum = offers(&[("groth16", "Groth16 · Zcash"), ("standin", "Stand-in · Teaching")]);
    let found = candidates("/run st", &museum);
    assert_eq!(found.len(), 1);
    assert_eq!(found[0].label, "standin");
    assert_eq!(found[0].detail, "Stand-in · Teaching");
    assert_eq!(found[0].line, "/run standin ");
    let first = candidates("/ab", &museum);
    assert_eq!(first[0].line, "/about ");
    assert_eq!(first[0].label, "/about <system>");
    assert_eq!(first[0].detail, "about /about");
    assert!(candidates("/run st\n", &museum).is_empty());
    assert_eq!(rank("GRO", "groth16"), Some(0));
    assert_eq!(rank("g16", "groth16"), Some(1));
    assert_eq!(rank("61", "groth16"), None);
}
