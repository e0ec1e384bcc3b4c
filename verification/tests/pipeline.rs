use propkb::kb::KB;
use propkb::model::Model;
use propkb::prop::Prop;

fn sym(name: &str) -> Prop {
    Prop::symbol(name)
}

fn eval_all(clauses: &Vec<Prop>, m: &Model) -> bool {
    let mut r = true;
    for c in clauses.iter() {
        r = r && c.eval(m);
    }
    r
}

fn model_pq(p: bool, q: bool) -> Model {
    let mut m = Model::new();
    m.insert("p", p);
    m.insert("q", q);
    m
}

fn model_pqr(p: bool, q: bool, r: bool) -> Model {
    let mut m = model_pq(p, q);
    m.insert("r", r);
    m
}

#[test]
fn print() {
    let mut kb = KB::empty();
    let _ = kb.tell(Prop::implic(Prop::and(sym("p"), sym("q")), sym("r")));
    let _ = kb.tell(Prop::or(sym("q"), sym("r")));
    println!("{}", kb.sentences.len());
    for prop in kb.sentences.iter() {
        println!("{}", prop.print_tree());
    }
}

#[test]
fn bicon_elim_rewrites_iff() {
    let mut p = Prop::iff(sym("p"), sym("q"));
    p.bicon_elim();
    let expected = Prop::and(
        Prop::implic(sym("p"), sym("q")),
        Prop::implic(sym("q"), sym("p")),
    );
    assert!(p.equals(&expected));
}

#[test]
fn implic_elim_rewrites_implication() {
    let mut p = Prop::implic(sym("p"), sym("q"));
    p.implic_elim();
    let expected = Prop::or(Prop::not(sym("p")), sym("q"));
    assert!(p.equals(&expected));
}

#[test]
fn double_negation() {
    let mut p = Prop::not(Prop::not(sym("p")));
    p.move_not_inward();
    assert!(p.equals(&sym("p")));
}

#[test]
fn de_morgan_over_and() {
    let mut p = Prop::not(Prop::and(sym("p"), sym("q")));
    p.move_not_inward();
    let expected = Prop::or(Prop::not(sym("p")), Prop::not(sym("q")));
    assert!(p.equals(&expected));
}

#[test]
fn de_morgan_over_or() {
    let mut p = Prop::not(Prop::or(sym("p"), sym("q")));
    p.move_not_inward();
    let expected = Prop::and(Prop::not(sym("p")), Prop::not(sym("q")));
    assert!(p.equals(&expected));
}

#[test]
fn constant_negation() {
    let mut t = Prop::not(Prop::true_literal());
    t.move_not_inward();
    assert!(t.equals(&Prop::false_literal()));
    let mut f = Prop::not(Prop::false_literal());
    f.move_not_inward();
    assert!(f.equals(&Prop::true_literal()));
}

#[test]
fn distribute_left_and() {
    let mut p = Prop::or(Prop::and(sym("a"), sym("b")), sym("c"));
    p.distribute_or_over_and();
    let expected = Prop::and(
        Prop::or(sym("a"), sym("c")),
        Prop::or(sym("b"), sym("c")),
    );
    assert!(p.equals(&expected));
}

#[test]
fn distribute_right_and() {
    let mut p = Prop::or(sym("a"), Prop::and(sym("b"), sym("c")));
    p.distribute_or_over_and();
    let expected = Prop::and(
        Prop::or(sym("a"), sym("b")),
        Prop::or(sym("a"), sym("c")),
    );
    assert!(p.equals(&expected));
}

#[test]
fn distribute_nested_or() {
    let mut p = Prop::or(Prop::or(Prop::and(sym("a"), sym("b")), sym("c")), sym("d"));
    p.distribute_or_over_and();
    let expected = Prop::and(
        Prop::or(Prop::or(sym("a"), sym("c")), sym("d")),
        Prop::or(Prop::or(sym("b"), sym("c")), sym("d")),
    );
    assert!(p.equals(&expected));
}

#[test]
fn distribute_both_children_and() {
    let mut p = Prop::or(Prop::and(sym("a"), sym("b")), Prop::and(sym("c"), sym("d")));
    p.distribute_or_over_and();
    let expected = Prop::and(
        Prop::and(Prop::or(sym("a"), sym("c")), Prop::or(sym("a"), sym("d"))),
        Prop::and(Prop::or(sym("b"), sym("c")), Prop::or(sym("b"), sym("d"))),
    );
    assert!(p.equals(&expected));
}

#[test]
fn de_morgan_round_trip() {
    let direct = Prop::or(Prop::not(sym("p")), Prop::not(sym("q")));
    for &pv in &[false, true] {
        for &qv in &[false, true] {
            let m = model_pq(pv, qv);
            let clauses = Prop::not(Prop::and(sym("p"), sym("q"))).cnf();
            assert_eq!(eval_all(&clauses, &m), direct.eval(&m));
        }
    }
}

#[test]
fn cnf_preserves_truth_value() {
    for &pv in &[false, true] {
        for &qv in &[false, true] {
            for &rv in &[false, true] {
                let m = model_pqr(pv, qv, rv);
                let original = Prop::or(Prop::iff(sym("p"), sym("q")), sym("r"));
                let before = original.eval(&m);
                let clauses = original.cnf();
                assert_eq!(eval_all(&clauses, &m), before);
            }
        }
    }
}

#[test]
fn cnf_of_implication_is_single_clause() {
    let clauses = Prop::implic(Prop::and(sym("p"), sym("q")), sym("r")).cnf();
    assert_eq!(clauses.len(), 1);
    let expected = Prop::or(Prop::or(Prop::not(sym("p")), Prop::not(sym("q"))), sym("r"));
    assert!(clauses[0].equals(&expected));
}

#[test]
fn split_clause_flattens_and_spine() {
    let clauses = Prop::and(Prop::and(sym("a"), sym("b")), Prop::and(sym("c"), sym("d"))).cnf();
    assert_eq!(clauses.len(), 4);
    assert!(clauses[0].equals(&sym("c")));
    assert!(clauses[1].equals(&sym("d")));
    assert!(clauses[2].equals(&sym("a")));
    assert!(clauses[3].equals(&sym("b")));
}

#[test]
fn eval_closed_world() {
    let m = Model::new();
    assert_eq!(sym("p").eval(&m), false);
    assert_eq!(Prop::not(sym("p")).eval(&m), true);
    assert_eq!(Prop::true_literal().eval(&m), true);
    assert_eq!(Prop::false_literal().eval(&m), false);
}

#[test]
fn eval_connectives() {
    let m = model_pq(true, false);
    assert_eq!(Prop::and(sym("p"), sym("q")).eval(&m), false);
    assert_eq!(Prop::or(sym("p"), sym("q")).eval(&m), true);
    assert_eq!(Prop::implic(sym("p"), sym("q")).eval(&m), false);
    assert_eq!(Prop::implic(sym("q"), sym("p")).eval(&m), true);
    assert_eq!(Prop::iff(sym("p"), sym("q")).eval(&m), false);
    assert_eq!(Prop::iff(sym("p"), sym("p")).eval(&m), true);
}

#[test]
fn kb_split_clauses_flattens_stored_conjunctions() {
    let mut kb = KB::empty();
    kb.sentences.push(Prop::and(sym("a"), sym("b")));
    kb.split_clauses();
    assert_eq!(kb.sentences.len(), 2);
    assert!(kb.sentences[0].equals(&sym("a")));
    assert!(kb.sentences[1].equals(&sym("b")));
}

#[test]
fn print_tree_renders_labels_and_indentation() {
    let p = Prop::and(sym("p"), Prop::not(sym("q")));
    assert_eq!(p.print_tree(), "And\n\tp\n\tNot\n\t\tq\n");
}
