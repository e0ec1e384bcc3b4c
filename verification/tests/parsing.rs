use propkb::kb::KB;
use propkb::prop::Prop;

fn sym(name: &str) -> Prop {
    Prop::symbol(name)
}

#[test]
fn parse_precedence() {
    let parsed = KB::str_to_prop("p & q => r").unwrap();
    let expected = Prop::implic(Prop::and(sym("p"), sym("q")), sym("r"));
    assert!(parsed.equals(&expected));
}

#[test]
fn parse_glued_parens() {
    let with_parens = KB::str_to_prop("(p & q)").unwrap();
    let without = KB::str_to_prop("p & q").unwrap();
    assert!(with_parens.equals(&without));
}

#[test]
fn parse_spaced_parens() {
    let spaced = KB::str_to_prop("( p & q )").unwrap();
    let without = KB::str_to_prop("p & q").unwrap();
    assert!(spaced.equals(&without));
}

#[test]
fn parse_trailing_operator_fails() {
    let r = KB::str_to_prop("p |");
    assert!(r.is_err());
    assert_eq!(r.unwrap_err(), "invalid sentence");
}

#[test]
fn parse_unbalanced_fails() {
    let r = KB::str_to_prop("(p & q");
    assert!(r.is_err());
    assert_eq!(r.unwrap_err(), "invalid sentence");
}

#[test]
fn parse_unmatched_close_fails() {
    assert!(KB::str_to_prop("p & q )").is_err());
}

#[test]
fn parse_empty_fails() {
    assert!(KB::str_to_prop("").is_err());
    assert!(KB::str_to_prop("   ").is_err());
}

#[test]
fn parse_juxtaposed_operands_fail() {
    assert!(KB::str_to_prop("p q").is_err());
}

#[test]
fn parse_constants() {
    let parsed = KB::str_to_prop("True | False").unwrap();
    let expected = Prop::or(Prop::true_literal(), Prop::false_literal());
    assert!(parsed.equals(&expected));
}

#[test]
fn parse_operator_order() {
    let parsed = KB::str_to_prop("a | b & c <=> d => e").unwrap();
    let expected = Prop::iff(
        Prop::or(sym("a"), Prop::and(sym("b"), sym("c"))),
        Prop::implic(sym("d"), sym("e")),
    );
    assert!(parsed.equals(&expected));
}

#[test]
fn kb_accumulation() {
    let mut kb = KB::empty();
    kb.tell(KB::str_to_prop("p & q => r").unwrap()).unwrap();
    kb.tell(KB::str_to_prop("q | r").unwrap()).unwrap();
    assert_eq!(kb.sentences.len(), 2);
    let first = Prop::or(Prop::or(Prop::not(sym("p")), Prop::not(sym("q"))), sym("r"));
    let second = Prop::or(sym("q"), sym("r"));
    assert!(kb.sentences[0].equals(&first));
    assert!(kb.sentences[1].equals(&second));
}

#[test]
fn tell_distributes_nested_disjunction() {
    let mut kb = KB::empty();
    kb.tell(KB::str_to_prop("( a & b | c ) | d").unwrap()).unwrap();
    assert_eq!(kb.sentences.len(), 2);
    let first = Prop::or(Prop::or(sym("a"), sym("c")), sym("d"));
    let second = Prop::or(Prop::or(sym("b"), sym("c")), sym("d"));
    assert!(kb.sentences[0].equals(&first));
    assert!(kb.sentences[1].equals(&second));
}

#[test]
fn tell_always_succeeds() {
    let mut kb = KB::empty();
    assert!(kb.tell(Prop::iff(sym("p"), sym("q"))).is_ok());
    assert!(kb.tell(Prop::true_literal()).is_ok());
    assert_eq!(kb.sentences.len(), 3);
}
