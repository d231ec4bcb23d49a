use priceshark::helper::{by_frequency, common_tags, flatten};
use priceshark::links::{first_repeated, missing_links, Link};
use priceshark::size::{is_number, parse_size, Container, SizeError, SizeText, Unit};

fn strings(raw: &[&str]) -> Vec<String> {
    raw.iter().map(|x| x.to_string()).collect()
}

#[test]
fn texts_are_ranked_by_how_common_they_are() {
    assert_eq!(
        by_frequency(&strings(&["b", "a", "c", "b", "a", "b", "d"])),
        strings(&["b", "a", "c", "d"])
    );
    assert_eq!(by_frequency(&strings(&["z", "é", "a", "Z"])), strings(&["Z", "a", "z", "é"]));
    assert_eq!(by_frequency(&Vec::new()), Vec::<String>::new());
    let tags = vec![strings(&["drink", "cola"]), Vec::new(), strings(&["drink", "water"])];
    assert_eq!(flatten(&tags), strings(&["drink", "cola", "drink", "water"]));
    assert_eq!(common_tags(&tags), strings(&["drink", "cola", "water"]));
}

fn coles(slug: &str, id: u32) -> Link {
    Link::ColesProduct { slug: slug.to_string(), id }
}

fn woolworths(slug: &str, id: u32) -> Link {
    Link::WoolworthsProduct { slug: slug.to_string(), id }
}

#[test]
fn missing_links_come_in_the_order_of_their_names() {
    let known = vec![coles("cola", 1), Link::Unknown("https://example.com".to_string()), woolworths("cola", 1)];
    assert_eq!(first_repeated(&known), None);
    let all = vec![
        coles("water", 3),
        woolworths("cola", 1),
        woolworths("apple", 2),
        Link::Unknown("x".to_string()),
        coles("apple", 9),
        coles("cola", 1),
        woolworths("Zest", 4),
        coles("apple", 2),
    ];
    assert_eq!(
        missing_links(&known, all),
        vec![
            woolworths("Zest", 4),
            woolworths("apple", 2),
            coles("apple", 9),
            coles("apple", 2),
            coles("water", 3),
        ]
    );
    assert_eq!(missing_links(&known, Vec::new()), Vec::new());
    let repeated = vec![coles("a", 1), woolworths("b", 1), Link::Unknown("x".to_string()), coles("c", 2), coles("d", 1), coles("e", 2)];
    assert_eq!(first_repeated(&repeated), Some(4));
}

#[test]
fn sizes_are_read() {
    assert_eq!(
        parse_size("1.25 l bottle"),
        Ok(SizeText {
            pack: 1,
            amount_is_total: false,
            amount: "1.25".to_string(),
            unit: Unit::Liters,
            container: Container::Bottle
        })
    );
    let each = parse_size("6 x 375 ml can").unwrap();
    assert_eq!(
        each,
        SizeText {
            pack: 6,
            amount_is_total: false,
            amount: "375".to_string(),
            unit: Unit::Milliliters,
            container: Container::Can
        }
    );
    assert_eq!(each.display("375"), "6x375mL Cans");
    let total = parse_size("4 = 1.5 kg glass").unwrap();
    assert!(total.amount_is_total);
    assert_eq!(total.display("1.5"), "1.5kg Glass Bottles");
    assert_eq!(parse_size("1.25 l bottle").unwrap().display("1.25"), "1.25L Bottle");
    assert_eq!(parse_size("1.25 l"), Err(SizeError::WordCount));
    assert_eq!(parse_size(""), Err(SizeError::WordCount));
    assert_eq!(parse_size("1.25  l bottle"), Err(SizeError::WordCount));
    assert_eq!(parse_size("x l bottle"), Err(SizeError::Amount));
    assert_eq!(parse_size("x L jar"), Err(SizeError::Amount));
    assert_eq!(parse_size("1 L bottle"), Err(SizeError::UnknownUnit));
    assert_eq!(parse_size("1 l jar"), Err(SizeError::UnknownContainer));
    assert_eq!(parse_size("six x 1 l bottle"), Err(SizeError::Pack));
    assert_eq!(parse_size("6 * 1 l bottle"), Err(SizeError::PackSymbol));
    assert_eq!(parse_size("6 x one l bottle"), Err(SizeError::Amount));
    assert_eq!(parse_size("6 x 1 oz bottle"), Err(SizeError::UnknownUnit));
    assert_eq!(parse_size("6 x 1 l box"), Err(SizeError::UnknownContainer));
}

#[test]
fn amounts_are_what_the_standard_library_reads_as_numbers() {
    let samples = [
        "", "1", "1.5", ".5", "5.", ".", "+", "-", "+1", "-1.5e3", "1e5", "1E5", "1e", "1e+", "1e+5",
        "1e-5", "e5", "1.e5", ".e5", ".5e5", "inf", "-inf", "+Infinity", "INF", "nan", "NaN", "-nan",
        "infinit", "in", "1 ", " 1", "1_000", "0x10", "1.2.3", "1e5.5", "--1", "+-1", "1f", "١",
        "1e٥", "00012.3400", "1ee5", "nan1", "infinityy", "3,5",
    ];
    for sample in samples {
        let chars: Vec<char> = sample.chars().collect();
        assert_eq!(is_number(&chars), sample.parse::<f64>().is_ok(), "{sample:?}");
    }
}
