use priceshark::eval::{eval, EvalError};
use priceshark::tokens::{parse_line, MissingParent, RawWord, Token, Tokenizer};

fn lines(raw: &[&str]) -> Vec<String> {
    raw.iter().map(|x| x.to_string()).collect()
}

fn strings(raw: &[&str]) -> Vec<String> {
    lines(raw)
}

#[test]
fn lines_are_read_word_by_word() {
    assert_eq!(
        parse_line("soft+drink +drink .cold  x"),
        vec![
            RawWord::Plain("soft drink".to_string()),
            RawWord::Parent("drink".to_string()),
            RawWord::HiddenParent("cold".to_string()),
            RawWord::Plain("x".to_string()),
        ]
    );
    assert_eq!(parse_line(""), Vec::<RawWord>::new());
    assert_eq!(parse_line("+"), vec![RawWord::Parent("".to_string())]);
    assert_eq!(RawWord::Plain("a".to_string()).parent(), None);
    assert_eq!(RawWord::Parent("a".to_string()).parent(), Some("a"));
    assert_eq!(RawWord::HiddenParent("b".to_string()).parent(), Some("b"));
}

#[test]
fn tokens_are_worked_out_as_their_parents_are() {
    let t = Tokenizer::from_lines(&lines(&["Cola +drink", "drink", "Diet +cola-drink .sugar-free", "Sugar Free"]))
        .unwrap();
    assert_eq!(
        t.tokens,
        vec![
            (
                "cola-drink".to_string(),
                Token { words: strings(&["Cola", "drink"]), parents: strings(&["drink"]) }
            ),
            (
                "diet-cola-drink".to_string(),
                Token {
                    words: strings(&["Diet", "Cola", "drink"]),
                    parents: strings(&["cola-drink", "sugar-free"])
                }
            ),
            ("drink".to_string(), Token { words: strings(&["drink"]), parents: Vec::new() }),
            (
                "sugar-free".to_string(),
                Token { words: strings(&["Sugar", "Free"]), parents: Vec::new() }
            ),
        ]
    );
    assert_eq!(t.tokens[0].1.display(), "Cola drink");
    assert_eq!(t.suggest("Diet Cola drink 2L"), vec!["cola-drink", "diet-cola-drink", "drink"]);
    assert_eq!(t.suggest("a drink"), vec!["drink"]);
    assert_eq!(t.suggest("water"), Vec::<&str>::new());
    assert_eq!(t.suggest("Sugar Free drink"), vec!["drink", "sugar-free"]);
}

#[test]
fn a_later_token_takes_the_place_of_an_earlier_one_with_its_slug() {
    let t = Tokenizer::from_lines(&lines(&["Drink", "drink .x", "x"])).unwrap();
    assert_eq!(
        t.tokens,
        vec![
            ("drink".to_string(), Token { words: strings(&["drink"]), parents: strings(&["x"]) }),
            ("x".to_string(), Token { words: strings(&["x"]), parents: Vec::new() }),
        ]
    );
}

#[test]
fn two_tokens_that_wait_one_after_the_other_stop_the_work() {
    // both parents come later, but the second token finds the first waiting
    let err = Tokenizer::from_lines(&lines(&["a +b", "c +d", "b", "d"])).unwrap_err();
    assert_eq!(
        err,
        MissingParent {
            token: vec![RawWord::Plain("c".to_string()), RawWord::Parent("d".to_string())],
            parent: "d".to_string()
        }
    );
    let err = Tokenizer::from_lines(&lines(&["a +nothing"])).unwrap_err();
    assert_eq!(err.parent, "nothing");
    assert_eq!(Tokenizer::from_lines(&Vec::new()).unwrap().tokens, Vec::new());
    // an empty line makes the token without words, under the empty slug
    let t = Tokenizer::from_lines(&lines(&[""])).unwrap();
    assert_eq!(t.tokens, vec![("".to_string(), Token { words: Vec::new(), parents: Vec::new() })]);
    assert_eq!(t.suggest("anything"), vec![""]);
}

fn definitions(raw: &[(&str, &str)]) -> Vec<(String, String)> {
    raw.iter().map(|(k, v)| (k.to_string(), v.to_string())).collect()
}

#[test]
fn names_are_written_out() {
    let tokens = definitions(&[
        ("cola", "Cola >drink"),
        ("drink", "Drink .cold"),
        ("cold", "Cold"),
        ("diet", "Diet =sugar-free"),
        ("sugar-free", "Sugar Free >x"),
        ("x", "X"),
    ]);
    assert_eq!(
        eval(&tokens, "Big >cola"),
        Ok(("Big Cola Drink".to_string(), strings(&["cola", "drink", "cold"])))
    );
    assert_eq!(
        eval(&tokens, ">diet >cold"),
        Ok(("Diet Cold".to_string(), strings(&["diet", "sugar-free", "x", "cold"])))
    );
    assert_eq!(eval(&tokens, "plain words"), Ok(("plain words".to_string(), Vec::new())));
    assert_eq!(eval(&tokens, ""), Ok(("".to_string(), Vec::new())));
    assert_eq!(eval(&tokens, "a  b"), Ok(("a  b".to_string(), Vec::new())));
    assert_eq!(eval(&tokens, ">nothing"), Err(EvalError::Undefined("nothing".to_string())));
    assert_eq!(
        EvalError::Undefined("nothing".to_string()).message(),
        "undefined token: nothing"
    );
}

#[test]
fn definitions_that_turn_in_a_circle_are_found_out() {
    let tokens = definitions(&[("a", "A >b"), ("b", "B .a")]);
    assert_eq!(eval(&tokens, ">a"), Err(EvalError::Endless));
    let own = definitions(&[("a", ">a")]);
    assert_eq!(eval(&own, ">a"), Err(EvalError::Endless));
    // as deep as there are definitions is not too deep
    let chain = definitions(&[("a", ">b"), ("b", ">c"), ("c", "end")]);
    assert_eq!(eval(&chain, ">a"), Ok(("end".to_string(), strings(&["a", "b", "c"]))));
}
