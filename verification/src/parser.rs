//! The infix parser: whitespace tokenization, shunting-yard operator
//! resolution with the precedence order `&`, `|`, `=>`, `<=>`, and
//! postfix evaluation into a formula tree.

use vstd::prelude::*;
use crate::prop::{Prop, PropView, vand, vor, vimplic};
use crate::shapes::seq_view;
use crate::kb::KB;

verus! {

/// A token of the shunting-yard state: an operator, an opening paren,
/// or an operand word.
pub enum Tok {
    AndTok,
    OrTok,
    ImplicTok,
    IffTok,
    OpenTok,
    WordTok(Seq<char>),
}

pub open spec fn is_and_word(w: Seq<char>) -> bool {
    w.len() == 1 && w[0] == '&'
}

pub open spec fn is_or_word(w: Seq<char>) -> bool {
    w.len() == 1 && w[0] == '|'
}

pub open spec fn is_implic_word(w: Seq<char>) -> bool {
    w.len() == 2 && w[0] == '=' && w[1] == '>'
}

pub open spec fn is_iff_word(w: Seq<char>) -> bool {
    w.len() == 3 && w[0] == '<' && w[1] == '=' && w[2] == '>'
}

pub open spec fn is_open_word(w: Seq<char>) -> bool {
    w.len() == 1 && w[0] == '('
}

pub open spec fn is_close_word(w: Seq<char>) -> bool {
    w.len() == 1 && w[0] == ')'
}

pub open spec fn is_true_word(w: Seq<char>) -> bool {
    w.len() == 4 && w[0] == 'T' && w[1] == 'r' && w[2] == 'u' && w[3] == 'e'
}

pub open spec fn is_false_word(w: Seq<char>) -> bool {
    w.len() == 5 && w[0] == 'F' && w[1] == 'a' && w[2] == 'l' && w[3] == 's' && w[4] == 'e'
}

pub open spec fn is_letter(c: char) -> bool {
    ('a' <= c && c <= 'z') || ('A' <= c && c <= 'Z')
}

pub open spec fn all_letters(w: Seq<char>) -> bool {
    forall|k: int| 0 <= k < w.len() ==> is_letter(#[trigger] w[k])
}

/// An opening paren glued to a symbol, as in `(p`.
pub open spec fn glued_open(w: Seq<char>) -> bool {
    w.len() >= 2 && w[0] == '(' && all_letters(w.skip(1))
}

/// A symbol glued to a closing paren, as in `q)`.
pub open spec fn glued_close(w: Seq<char>) -> bool {
    w.len() >= 2 && w[w.len() - 1] == ')' && all_letters(w.take(w.len() - 1))
}

/// Binding strength of an operator token; higher binds tighter.
pub open spec fn prec(t: Tok) -> int {
    match t {
        Tok::AndTok => 4,
        Tok::OrTok => 3,
        Tok::ImplicTok => 2,
        Tok::IffTok => 1,
        _ => 0,
    }
}

pub open spec fn is_op(t: Tok) -> bool {
    match t {
        Tok::AndTok => true,
        Tok::OrTok => true,
        Tok::ImplicTok => true,
        Tok::IffTok => true,
        _ => false,
    }
}

/// Before a new operator of strength `p` is pushed, every pending
/// operator that binds strictly tighter is moved to the output queue.
pub open spec fn flush_higher(ops: Seq<Tok>, out: Seq<Tok>, p: int) -> (Seq<Tok>, Seq<Tok>)
    decreases ops.len(),
{
    if ops.len() == 0 {
        (ops, out)
    } else {
        let t = ops.last();
        if is_op(t) && prec(t) > p {
            flush_higher(ops.drop_last(), out.push(t), p)
        } else {
            (ops, out)
        }
    }
}

/// A closing paren moves pending operators to the output queue until the
/// matching opening paren; with no such paren the sentence is invalid.
pub open spec fn pop_to_open(ops: Seq<Tok>, out: Seq<Tok>) -> Option<(Seq<Tok>, Seq<Tok>)>
    decreases ops.len(),
{
    if ops.len() == 0 {
        None
    } else {
        let t = ops.last();
        if t is OpenTok {
            Some((ops.drop_last(), out))
        } else {
            pop_to_open(ops.drop_last(), out.push(t))
        }
    }
}

/// One word of the sentence moves through the shunting yard.
pub open spec fn shunt_step(w: Seq<char>, ops: Seq<Tok>, out: Seq<Tok>) -> Option<
    (Seq<Tok>, Seq<Tok>),
> {
    if is_and_word(w) {
        Some((ops.push(Tok::AndTok), out))
    } else if is_or_word(w) {
        let (o, e) = flush_higher(ops, out, 3);
        Some((o.push(Tok::OrTok), e))
    } else if is_implic_word(w) {
        let (o, e) = flush_higher(ops, out, 2);
        Some((o.push(Tok::ImplicTok), e))
    } else if is_iff_word(w) {
        let (o, e) = flush_higher(ops, out, 1);
        Some((o.push(Tok::IffTok), e))
    } else if is_open_word(w) {
        Some((ops.push(Tok::OpenTok), out))
    } else if is_close_word(w) {
        pop_to_open(ops, out)
    } else if glued_open(w) {
        Some((ops.push(Tok::OpenTok), out.push(Tok::WordTok(w.skip(1)))))
    } else if glued_close(w) {
        pop_to_open(ops, out.push(Tok::WordTok(w.take(w.len() - 1))))
    } else {
        Some((ops, out.push(Tok::WordTok(w))))
    }
}

/// Every word of the sentence in order through the shunting yard.
pub open spec fn shunt_words(words: Seq<Seq<char>>, ops: Seq<Tok>, out: Seq<Tok>) -> Option<
    (Seq<Tok>, Seq<Tok>),
>
    decreases words.len(),
{
    if words.len() == 0 {
        Some((ops, out))
    } else {
        match shunt_step(words[0], ops, out) {
            None => None,
            Some(st) => shunt_words(words.drop_first(), st.0, st.1),
        }
    }
}

/// After the last word, pending operators move to the output queue; an
/// opening paren still pending means unbalanced parentheses.
pub open spec fn final_flush(ops: Seq<Tok>, out: Seq<Tok>) -> Option<Seq<Tok>>
    decreases ops.len(),
{
    if ops.len() == 0 {
        Some(out)
    } else {
        let t = ops.last();
        if t is OpenTok {
            None
        } else {
            final_flush(ops.drop_last(), out.push(t))
        }
    }
}

/// The postfix token queue a word list resolves to.
pub open spec fn shunt_all(words: Seq<Seq<char>>) -> Option<Seq<Tok>> {
    match shunt_words(words, Seq::<Tok>::empty(), Seq::<Tok>::empty()) {
        None => None,
        Some(st) => final_flush(st.0, st.1),
    }
}

/// The formula an operand word denotes: the reserved words `True` and
/// `False` denote the constants, any other word a symbol of that name.
pub open spec fn word_prop(w: Seq<char>) -> PropView {
    if is_true_word(w) {
        PropView::True
    } else if is_false_word(w) {
        PropView::False
    } else {
        PropView::Symbol(w)
    }
}

/// Left-to-right evaluation of the postfix queue over an operand stack;
/// a binary operator pops its right operand first.
pub open spec fn pf_eval(toks: Seq<Tok>, stack: Seq<PropView>) -> Option<Seq<PropView>>
    decreases toks.len(),
{
    if toks.len() == 0 {
        Some(stack)
    } else {
        match toks[0] {
            Tok::WordTok(w) => pf_eval(toks.drop_first(), stack.push(word_prop(w))),
            Tok::OpenTok => None,
            t => {
                if stack.len() < 2 {
                    None
                } else {
                    let rhs = stack.last();
                    let lhs = stack.drop_last().last();
                    let rest = stack.drop_last().drop_last();
                    let combined = match t {
                        Tok::AndTok => vand(lhs, rhs),
                        Tok::OrTok => vor(lhs, rhs),
                        Tok::ImplicTok => vimplic(lhs, rhs),
                        _ => PropView::Iff(Box::new(lhs), Box::new(rhs)),
                    };
                    pf_eval(toks.drop_first(), rest.push(combined))
                }
            },
        }
    }
}

/// The formula a word list parses to, if any: a single operand must
/// remain once the postfix queue is evaluated.
pub open spec fn parse_words(words: Seq<Seq<char>>) -> Option<PropView> {
    match shunt_all(words) {
        None => None,
        Some(toks) => match pf_eval(toks, Seq::<PropView>::empty()) {
            None => None,
            Some(stack) => if stack.len() == 1 {
                Some(stack[0])
            } else {
                None
            },
        },
    }
}

/// The longest space-free prefix.
pub open spec fn word_prefix(s: Seq<char>) -> Seq<char>
    decreases s.len(),
{
    if s.len() == 0 || s[0] == ' ' {
        Seq::<char>::empty()
    } else {
        seq![s[0]] + word_prefix(s.drop_first())
    }
}

pub proof fn lemma_word_prefix_len(s: Seq<char>)
    ensures
        word_prefix(s).len() <= s.len(),
        s.len() > 0 && s[0] != ' ' ==> word_prefix(s).len() >= 1,
    decreases s.len(),
{
    if s.len() == 0 || s[0] == ' ' {
    } else {
        lemma_word_prefix_len(s.drop_first());
    }
}

/// The words of a sentence: the maximal space-free segments, in order.
pub open spec fn split_words(s: Seq<char>) -> Seq<Seq<char>>
    decreases s.len(),
{
    if s.len() == 0 {
        Seq::<Seq<char>>::empty()
    } else if s[0] == ' ' {
        split_words(s.drop_first())
    } else {
        let w = word_prefix(s);
        proof {
            lemma_word_prefix_len(s);
        }
        seq![w] + split_words(s.skip(w.len() as int))
    }
}

/// The formula a sentence parses to, if any.
pub open spec fn parse_spec(s: Seq<char>) -> Option<PropView> {
    parse_words(split_words(s))
}

pub proof fn lemma_word_prefix_range(s: Seq<char>, i: int, j: int)
    requires
        0 <= i < j <= s.len(),
        forall|k: int| i <= k < j ==> #[trigger] s[k] != ' ',
        j == s.len() || s[j] == ' ',
    ensures
        word_prefix(s.skip(i)) == s.subrange(i, j),
    decreases j - i,
{
    let t = s.skip(i);
    assert(t[0] == s[i]);
    assert(t.drop_first() =~= s.skip(i + 1));
    if i + 1 == j {
        if j == s.len() {
            assert(s.skip(j).len() == 0);
        } else {
            assert(s.skip(j)[0] == s[j]);
        }
        assert(word_prefix(s.skip(j)) == Seq::<char>::empty());
        assert(word_prefix(t) == seq![s[i]] + word_prefix(s.skip(j)));
        assert(seq![s[i]] + Seq::<char>::empty() =~= s.subrange(i, j));
    } else {
        lemma_word_prefix_range(s, i + 1, j);
        assert(word_prefix(t) == seq![s[i]] + s.subrange(i + 1, j));
        assert(seq![s[i]] + s.subrange(i + 1, j) =~= s.subrange(i, j));
    }
}

pub proof fn lemma_split_words_space(s: Seq<char>, i: int)
    requires
        0 <= i < s.len(),
        s[i] == ' ',
    ensures
        split_words(s.skip(i)) == split_words(s.skip(i + 1)),
{
    let t = s.skip(i);
    assert(t[0] == s[i]);
    assert(t.drop_first() =~= s.skip(i + 1));
}

pub proof fn lemma_split_words_word(s: Seq<char>, i: int, j: int)
    requires
        0 <= i < j <= s.len(),
        forall|k: int| i <= k < j ==> #[trigger] s[k] != ' ',
        j == s.len() || s[j] == ' ',
    ensures
        split_words(s.skip(i)) == seq![s.subrange(i, j)] + split_words(s.skip(j)),
{
    let t = s.skip(i);
    assert(t[0] == s[i]);
    lemma_word_prefix_range(s, i, j);
    assert(word_prefix(t).len() == j - i);
    assert(t.skip(j - i) =~= s.skip(j));
    assert(split_words(t) == seq![word_prefix(t)] + split_words(t.skip(j - i)));
}


/// Operator-stack entry of the executable parser.
pub enum OpTok {
    AndOp,
    OrOp,
    ImplicOp,
    IffOp,
    OpenParen,
}

pub open spec fn op_view(t: OpTok) -> Tok {
    match t {
        OpTok::AndOp => Tok::AndTok,
        OpTok::OrOp => Tok::OrTok,
        OpTok::ImplicOp => Tok::ImplicTok,
        OpTok::IffOp => Tok::IffTok,
        OpTok::OpenParen => Tok::OpenTok,
    }
}

/// Output-queue entry of the executable parser.
pub enum PfTok {
    AndPf,
    OrPf,
    ImplicPf,
    IffPf,
    WordPf(String),
}

pub open spec fn pf_view(t: PfTok) -> Tok {
    match t {
        PfTok::AndPf => Tok::AndTok,
        PfTok::OrPf => Tok::OrTok,
        PfTok::ImplicPf => Tok::ImplicTok,
        PfTok::IffPf => Tok::IffTok,
        PfTok::WordPf(s) => Tok::WordTok(s@),
    }
}

pub open spec fn ops_views(s: Seq<OpTok>) -> Seq<Tok> {
    s.map_values(|t: OpTok| op_view(t))
}

pub open spec fn pf_views(s: Seq<PfTok>) -> Seq<Tok> {
    s.map_values(|t: PfTok| pf_view(t))
}

pub open spec fn words_views(s: Seq<&str>) -> Seq<Seq<char>> {
    s.map_values(|w: &str| w@)
}

proof fn lemma_ops_push(s: Seq<OpTok>, x: OpTok)
    ensures
        ops_views(s.push(x)) == ops_views(s).push(op_view(x)),
{
    assert(ops_views(s.push(x)) =~= ops_views(s).push(op_view(x)));
}

proof fn lemma_ops_drop_last(s: Seq<OpTok>)
    requires
        s.len() > 0,
    ensures
        ops_views(s.drop_last()) == ops_views(s).drop_last(),
        ops_views(s).last() == op_view(s.last()),
{
    assert(ops_views(s.drop_last()) =~= ops_views(s).drop_last());
}

proof fn lemma_pf_push(s: Seq<PfTok>, x: PfTok)
    ensures
        pf_views(s.push(x)) == pf_views(s).push(pf_view(x)),
{
    assert(pf_views(s.push(x)) =~= pf_views(s).push(pf_view(x)));
}

proof fn lemma_words_push(s: Seq<&str>, x: &str)
    ensures
        words_views(s.push(x)) == words_views(s).push(x@),
{
    assert(words_views(s.push(x)) =~= words_views(s).push(x@));
}

fn is_and_str(w: &str) -> (b: bool)
    ensures
        b == is_and_word(w@),
{
    w.unicode_len() == 1 && w.get_char(0) == '&'
}

fn is_or_str(w: &str) -> (b: bool)
    ensures
        b == is_or_word(w@),
{
    w.unicode_len() == 1 && w.get_char(0) == '|'
}

fn is_implic_str(w: &str) -> (b: bool)
    ensures
        b == is_implic_word(w@),
{
    w.unicode_len() == 2 && w.get_char(0) == '=' && w.get_char(1) == '>'
}

fn is_iff_str(w: &str) -> (b: bool)
    ensures
        b == is_iff_word(w@),
{
    w.unicode_len() == 3 && w.get_char(0) == '<' && w.get_char(1) == '=' && w.get_char(2) == '>'
}

fn is_open_str(w: &str) -> (b: bool)
    ensures
        b == is_open_word(w@),
{
    w.unicode_len() == 1 && w.get_char(0) == '('
}

fn is_close_str(w: &str) -> (b: bool)
    ensures
        b == is_close_word(w@),
{
    w.unicode_len() == 1 && w.get_char(0) == ')'
}

fn is_true_str(w: &str) -> (b: bool)
    ensures
        b == is_true_word(w@),
{
    w.unicode_len() == 4 && w.get_char(0) == 'T' && w.get_char(1) == 'r' && w.get_char(2) == 'u'
        && w.get_char(3) == 'e'
}

fn is_false_str(w: &str) -> (b: bool)
    ensures
        b == is_false_word(w@),
{
    w.unicode_len() == 5 && w.get_char(0) == 'F' && w.get_char(1) == 'a' && w.get_char(2) == 'l'
        && w.get_char(3) == 's' && w.get_char(4) == 'e'
}

fn is_letter_char(c: char) -> (b: bool)
    ensures
        b == is_letter(c),
{
    ('a' <= c && c <= 'z') || ('A' <= c && c <= 'Z')
}

fn all_letters_range(w: &str, from: usize, to: usize) -> (b: bool)
    requires
        from <= to <= w@.len(),
    ensures
        b == forall|k: int| from <= k < to ==> is_letter(#[trigger] w@[k]),
{
    let mut k: usize = from;
    while k < to
        invariant
            from <= k <= to <= w@.len(),
            forall|j: int| from <= j < k ==> is_letter(#[trigger] w@[j]),
        decreases to - k,
    {
        if !is_letter_char(w.get_char(k)) {
            return false;
        }
        k = k + 1;
    }
    true
}

fn glued_open_str(w: &str) -> (b: bool)
    ensures
        b == glued_open(w@),
{
    let n = w.unicode_len();
    if n < 2 {
        return false;
    }
    if w.get_char(0) != '(' {
        return false;
    }
    let r = all_letters_range(w, 1, n);
    proof {
        assert(forall|k: int|
            0 <= k < w@.skip(1).len() ==> #[trigger] w@.skip(1)[k] == w@[k + 1]);
        if r {
            assert(all_letters(w@.skip(1)));
        } else {
            let k = choose|k: int| 1 <= k < n && !is_letter(#[trigger] w@[k]);
            assert(w@.skip(1)[k - 1] == w@[k]);
            assert(!all_letters(w@.skip(1)));
        }
    }
    r
}

fn glued_close_str(w: &str) -> (b: bool)
    ensures
        b == glued_close(w@),
{
    let n = w.unicode_len();
    if n < 2 {
        return false;
    }
    if w.get_char(n - 1) != ')' {
        return false;
    }
    let r = all_letters_range(w, 0, n - 1);
    proof {
        assert(forall|k: int|
            0 <= k < w@.take(n - 1).len() ==> #[trigger] w@.take(n - 1)[k] == w@[k]);
        if r {
            assert(all_letters(w@.take(n - 1)));
        } else {
            let k = choose|k: int| 0 <= k < n - 1 && !is_letter(#[trigger] w@[k]);
            assert(w@.take(n - 1)[k] == w@[k]);
            assert(!all_letters(w@.take(n - 1)));
        }
    }
    r
}

fn op_prec(t: &OpTok) -> (r: u32)
    ensures
        r as int == prec(op_view(*t)),
{
    match t {
        OpTok::AndOp => 4,
        OpTok::OrOp => 3,
        OpTok::ImplicOp => 2,
        OpTok::IffOp => 1,
        OpTok::OpenParen => 0,
    }
}

/// Moves pending operators that bind strictly tighter than `p` from the
/// operator stack to the output queue.
fn flush_ops(ops: &mut Vec<OpTok>, out: &mut Vec<PfTok>, p: u32)
    requires
        1 <= p,
    ensures
        ops_views(final(ops)@) == flush_higher(
            ops_views(old(ops)@),
            pf_views(old(out)@),
            p as int,
        ).0,
        pf_views(final(out)@) == flush_higher(
            ops_views(old(ops)@),
            pf_views(old(out)@),
            p as int,
        ).1,
{
    while ops.len() > 0 && op_prec(&ops[ops.len() - 1]) > p
        invariant
            1 <= p,
            flush_higher(ops_views(ops@), pf_views(out@), p as int) == flush_higher(
                ops_views(old(ops)@),
                pf_views(old(out)@),
                p as int,
            ),
        decreases ops@.len(),
    {
        let ghost vec0 = ops@;
        let ghost ops0 = ops_views(ops@);
        let ghost out0 = pf_views(out@);
        proof {
            lemma_ops_drop_last(vec0);
        }
        let t = ops.pop().unwrap();
        proof {
            assert(ops@ =~= vec0.drop_last());
            assert(op_view(t) == ops0.last());
            assert(is_op(op_view(t)) && prec(op_view(t)) > p as int);
        }
        match t {
            OpTok::AndOp => out.push(PfTok::AndPf),
            OpTok::OrOp => out.push(PfTok::OrPf),
            OpTok::ImplicOp => out.push(PfTok::ImplicPf),
            OpTok::IffOp => out.push(PfTok::IffPf),
            OpTok::OpenParen => {
                proof {
                    assert(false);
                }
            },
        }
        proof {
            assert(pf_views(out@) =~= out0.push(ops0.last()));
            assert(flush_higher(ops0, out0, p as int) == flush_higher(
                ops_views(ops@),
                pf_views(out@),
                p as int,
            ));
        }
    }
    proof {
        assert(flush_higher(ops_views(ops@), pf_views(out@), p as int) == (
            ops_views(ops@),
            pf_views(out@),
        )) by {
            if ops@.len() > 0 {
                lemma_ops_drop_last(ops@);
            }
        }
    }
}

/// Moves pending operators to the output queue until the matching
/// opening paren; reports failure when none is pending.
fn pop_paren(ops: &mut Vec<OpTok>, out: &mut Vec<PfTok>) -> (ok: bool)
    ensures
        match pop_to_open(ops_views(old(ops)@), pf_views(old(out)@)) {
            Some(st) => ok && ops_views(final(ops)@) == st.0 && pf_views(final(out)@) == st.1,
            None => !ok,
        },
{
    while ops.len() > 0
        invariant
            pop_to_open(ops_views(ops@), pf_views(out@)) == pop_to_open(
                ops_views(old(ops)@),
                pf_views(old(out)@),
            ),
        decreases ops@.len(),
    {
        let ghost vec0 = ops@;
        let ghost ops0 = ops_views(ops@);
        let ghost out0 = pf_views(out@);
        proof {
            lemma_ops_drop_last(vec0);
        }
        let t = ops.pop().unwrap();
        proof {
            assert(ops@ =~= vec0.drop_last());
            assert(op_view(t) == ops0.last());
        }
        match t {
            OpTok::OpenParen => {
                proof {
                    assert(pop_to_open(ops0, out0) == Some((ops0.drop_last(), out0)));
                }
                return true;
            },
            OpTok::AndOp => out.push(PfTok::AndPf),
            OpTok::OrOp => out.push(PfTok::OrPf),
            OpTok::ImplicOp => out.push(PfTok::ImplicPf),
            OpTok::IffOp => out.push(PfTok::IffPf),
        }
        proof {
            assert(pf_views(out@) =~= out0.push(ops0.last()));
            assert(pop_to_open(ops0, out0) == pop_to_open(ops_views(ops@), pf_views(out@)));
        }
    }
    proof {
        assert(ops_views(ops@).len() == 0);
        assert(pop_to_open(ops_views(ops@), pf_views(out@)) is None);
    }
    false
}

impl KB {
    /// Parses a whitespace-separated infix sentence into a formula with
    /// the shunting-yard algorithm; a malformed sentence is reported as
    /// a recoverable error.
    pub fn str_to_prop(sentence: &str) -> (r: Result<Prop, &'static str>)
        ensures
            parse_spec(sentence@) is Some ==> r is Ok && r->Ok_0@ == parse_spec(sentence@)->Some_0,
            parse_spec(sentence@) is None ==> r is Err,
            r is Err ==> r->Err_0@ == "invalid sentence"@,
    {
        let ghost sv = sentence@;
        let n = sentence.unicode_len();

        let mut words: Vec<&str> = Vec::new();
        let mut i: usize = 0;
        proof {
            assert(sv.skip(0) =~= sv);
            assert(words_views(words@) =~= Seq::<Seq<char>>::empty());
        }
        while i < n
            invariant
                n == sv.len(),
                sv == sentence@,
                i <= n,
                words_views(words@) + split_words(sv.skip(i as int)) == split_words(sv),
            decreases n - i,
        {
            if sentence.get_char(i) == ' ' {
                proof {
                    lemma_split_words_space(sv, i as int);
                }
                i = i + 1;
            } else {
                let start: usize = i;
                i = i + 1;
                while i < n && sentence.get_char(i) != ' '
                    invariant
                        n == sv.len(),
                        sv == sentence@,
                        start < i <= n,
                        forall|k: int| start <= k < i ==> #[trigger] sv[k] != ' ',
                    decreases n - i,
                {
                    i = i + 1;
                }
                let w = sentence.substring_char(start, i);
                let ghost pre_words = words@;
                words.push(w);
                proof {
                    assert(i == n || sv[i as int] == ' ');
                    lemma_split_words_word(sv, start as int, i as int);
                    lemma_words_push(pre_words, w);
                    assert(w@ == sv.subrange(start as int, i as int));
                    assert(words_views(words@) + split_words(sv.skip(i as int)) =~= words_views(
                        pre_words,
                    ) + split_words(sv.skip(start as int)));
                }
            }
        }
        proof {
            assert(sv.skip(n as int).len() == 0);
            assert(split_words(sv.skip(n as int)) == Seq::<Seq<char>>::empty());
            assert(words_views(words@) + Seq::<Seq<char>>::empty() =~= words_views(words@));
        }
        let ghost wv = split_words(sv);
        let ghost sw = shunt_words(wv, Seq::<Tok>::empty(), Seq::<Tok>::empty());

        let mut ops: Vec<OpTok> = Vec::new();
        let mut out: Vec<PfTok> = Vec::new();
        let mut wi: usize = 0;
        let nw = words.len();
        proof {
            assert(ops_views(ops@) =~= Seq::<Tok>::empty());
            assert(pf_views(out@) =~= Seq::<Tok>::empty());
            assert(wv.skip(0) =~= wv);
        }
        while wi < nw
            invariant
                nw == words@.len(),
                sv == sentence@,
                wv == split_words(sv),
                words_views(words@) == wv,
                wi <= nw,
                sw == shunt_words(wv, Seq::<Tok>::empty(), Seq::<Tok>::empty()),
                shunt_words(wv.skip(wi as int), ops_views(ops@), pf_views(out@)) == sw,
            decreases nw - wi,
        {
            let w: &str = words[wi];
            let ghost wsv = w@;
            let ghost ops0 = ops_views(ops@);
            let ghost out0 = pf_views(out@);
            proof {
                assert(wv[wi as int] == wsv);
                assert(wv.skip(wi as int)[0] == wv[wi as int]);
                assert(wv.skip(wi as int).drop_first() =~= wv.skip(wi as int + 1));
                assert(wv.skip(wi as int).len() > 0);
            }
            if is_and_str(w) {
                let ghost pre = ops@;
                ops.push(OpTok::AndOp);
                proof {
                    lemma_ops_push(pre, OpTok::AndOp);
                    assert(shunt_step(wsv, ops0, out0) == Some((ops_views(ops@), pf_views(out@))));
                }
            } else if is_or_str(w) {
                flush_ops(&mut ops, &mut out, 3);
                let ghost pre = ops@;
                ops.push(OpTok::OrOp);
                proof {
                    lemma_ops_push(pre, OpTok::OrOp);
                    assert(shunt_step(wsv, ops0, out0) == Some((ops_views(ops@), pf_views(out@))));
                }
            } else if is_implic_str(w) {
                flush_ops(&mut ops, &mut out, 2);
                let ghost pre = ops@;
                ops.push(OpTok::ImplicOp);
                proof {
                    lemma_ops_push(pre, OpTok::ImplicOp);
                    assert(shunt_step(wsv, ops0, out0) == Some((ops_views(ops@), pf_views(out@))));
                }
            } else if is_iff_str(w) {
                flush_ops(&mut ops, &mut out, 1);
                let ghost pre = ops@;
                ops.push(OpTok::IffOp);
                proof {
                    lemma_ops_push(pre, OpTok::IffOp);
                    assert(shunt_step(wsv, ops0, out0) == Some((ops_views(ops@), pf_views(out@))));
                }
            } else if is_open_str(w) {
                let ghost pre = ops@;
                ops.push(OpTok::OpenParen);
                proof {
                    lemma_ops_push(pre, OpTok::OpenParen);
                    assert(shunt_step(wsv, ops0, out0) == Some((ops_views(ops@), pf_views(out@))));
                }
            } else if is_close_str(w) {
                let ok = pop_paren(&mut ops, &mut out);
                if !ok {
                    proof {
                        assert(shunt_step(wsv, ops0, out0) is None);
                        assert(sw is None);
                        assert(shunt_all(wv) is None);
                        assert(parse_words(wv) is None);
                        assert(parse_spec(sv) is None);
                    }
                    return Err("invalid sentence");
                }
                proof {
                    assert(shunt_step(wsv, ops0, out0) == Some((ops_views(ops@), pf_views(out@))));
                }
            } else if glued_open_str(w) {
                let wl = w.unicode_len();
                let rest = w.substring_char(1, wl);
                let rest_string = rest.to_owned();
                let ghost pre_ops = ops@;
                let ghost pre_out = out@;
                ops.push(OpTok::OpenParen);
                out.push(PfTok::WordPf(rest_string));
                proof {
                    lemma_ops_push(pre_ops, OpTok::OpenParen);
                    lemma_pf_push(pre_out, out@.last());
                    assert(out@ =~= pre_out.push(out@.last()));
                    assert(rest@ =~= wsv.skip(1));
                    assert(pf_views(out@) =~= out0.push(Tok::WordTok(wsv.skip(1))));
                    assert(shunt_step(wsv, ops0, out0) == Some((ops_views(ops@), pf_views(out@))));
                }
            } else if glued_close_str(w) {
                let wl = w.unicode_len();
                let prefix = w.substring_char(0, wl - 1);
                let prefix_string = prefix.to_owned();
                let ghost pre_out = out@;
                out.push(PfTok::WordPf(prefix_string));
                proof {
                    lemma_pf_push(pre_out, out@.last());
                    assert(out@ =~= pre_out.push(out@.last()));
                    assert(prefix@ =~= wsv.take(wsv.len() - 1));
                    assert(pf_views(out@) =~= out0.push(Tok::WordTok(wsv.take(wsv.len() - 1))));
                }
                let ghost mid_out = pf_views(out@);
                let ok = pop_paren(&mut ops, &mut out);
                if !ok {
                    proof {
                        assert(pop_to_open(ops0, mid_out) is None);
                        assert(shunt_step(wsv, ops0, out0) is None);
                        assert(sw is None);
                        assert(shunt_all(wv) is None);
                        assert(parse_words(wv) is None);
                        assert(parse_spec(sv) is None);
                    }
                    return Err("invalid sentence");
                }
                proof {
                    assert(shunt_step(wsv, ops0, out0) == Some((ops_views(ops@), pf_views(out@))));
                }
            } else {
                let word_string = w.to_owned();
                let ghost pre_out = out@;
                out.push(PfTok::WordPf(word_string));
                proof {
                    lemma_pf_push(pre_out, out@.last());
                    assert(out@ =~= pre_out.push(out@.last()));
                    assert(pf_views(out@) =~= out0.push(Tok::WordTok(wsv)));
                    assert(shunt_step(wsv, ops0, out0) == Some((ops_views(ops@), pf_views(out@))));
                }
            }
            proof {
                assert(shunt_words(wv.skip(wi as int), ops0, out0) == shunt_words(
                    wv.skip(wi as int + 1),
                    ops_views(ops@),
                    pf_views(out@),
                ));
            }
            wi = wi + 1;
        }
        proof {
            assert(wv.skip(nw as int).len() == 0);
            assert(sw == Some((ops_views(ops@), pf_views(out@))));
        }

        let ghost flush_start_ops = ops_views(ops@);
        let ghost flush_start_out = pf_views(out@);
        while ops.len() > 0
            invariant
                sv == sentence@,
                wv == split_words(sv),
                sw == shunt_words(wv, Seq::<Tok>::empty(), Seq::<Tok>::empty()),
                sw is Some,
                final_flush(ops_views(ops@), pf_views(out@)) == final_flush(
                    sw->Some_0.0,
                    sw->Some_0.1,
                ),
            decreases ops@.len(),
        {
            let ghost vec0 = ops@;
            let ghost ops0 = ops_views(ops@);
            let ghost out0 = pf_views(out@);
            proof {
                lemma_ops_drop_last(vec0);
            }
            let t = ops.pop().unwrap();
            proof {
                assert(ops@ =~= vec0.drop_last());
                assert(op_view(t) == ops0.last());
            }
            match t {
                OpTok::OpenParen => {
                    proof {
                        assert(final_flush(ops0, out0) is None);
                        assert(shunt_all(wv) is None);
                        assert(parse_words(wv) is None);
                        assert(parse_spec(sv) is None);
                    }
                    return Err("invalid sentence");
                },
                OpTok::AndOp => out.push(PfTok::AndPf),
                OpTok::OrOp => out.push(PfTok::OrPf),
                OpTok::ImplicOp => out.push(PfTok::ImplicPf),
                OpTok::IffOp => out.push(PfTok::IffPf),
            }
            proof {
                assert(pf_views(out@) =~= out0.push(ops0.last()));
                assert(final_flush(ops0, out0) == final_flush(ops_views(ops@), pf_views(out@)));
            }
        }
        let ghost pq = pf_views(out@);
        proof {
            assert(ops_views(ops@).len() == 0);
            assert(final_flush(ops_views(ops@), pq) == Some(pq));
            assert(shunt_all(wv) == Some(pq));
        }

        let mut stack: Vec<Prop> = Vec::new();
        let mut ti: usize = 0;
        let nt = out.len();
        proof {
            assert(pq.skip(0) =~= pq);
            assert(seq_view(stack@) =~= Seq::<PropView>::empty());
        }
        while ti < nt
            invariant
                nt == out@.len(),
                sv == sentence@,
                wv == split_words(sv),
                shunt_all(wv) == Some(pq),
                pf_views(out@) == pq,
                ti <= nt,
                pf_eval(pq.skip(ti as int), seq_view(stack@)) == pf_eval(
                    pq,
                    Seq::<PropView>::empty(),
                ),
            decreases nt - ti,
        {
            let ghost st0 = seq_view(stack@);
            proof {
                assert(pq[ti as int] == pf_view(out@[ti as int]));
                assert(pq.skip(ti as int)[0] == pq[ti as int]);
                assert(pq.skip(ti as int).drop_first() =~= pq.skip(ti as int + 1));
                assert(pq.skip(ti as int).len() > 0);
            }
            let is_word = matches!(&out[ti], PfTok::WordPf(_));
            if is_word {
                let sp: Prop;
                match &out[ti] {
                    PfTok::WordPf(s) => {
                        if is_true_str(s.as_str()) {
                            sp = Prop::True;
                        } else if is_false_str(s.as_str()) {
                            sp = Prop::False;
                        } else {
                            sp = Prop::Symbol(s.clone());
                        }
                        proof {
                            assert(sp@ == word_prop(s@));
                        }
                    },
                    _ => {
                        proof {
                            assert(false);
                        }
                        sp = Prop::True;
                    },
                }
                let ghost pre = stack@;
                let ghost spv = sp@;
                stack.push(sp);
                proof {
                    crate::shapes::lemma_seq_view_push(pre, stack@.last());
                    assert(seq_view(stack@) =~= st0.push(spv));
                    assert(pf_eval(pq.skip(ti as int), st0) == pf_eval(
                        pq.skip(ti as int + 1),
                        seq_view(stack@),
                    ));
                }
            } else {
                if stack.len() < 2 {
                    proof {
                        assert(pf_eval(pq.skip(ti as int), st0) is None);
                        assert(pf_eval(pq, Seq::<PropView>::empty()) is None);
                        assert(parse_words(wv) is None);
                        assert(parse_spec(sv) is None);
                    }
                    return Err("invalid sentence");
                }
                let ghost vec0 = stack@;
                proof {
                    crate::shapes::lemma_seq_view_drop_last(vec0);
                }
                let rhs = stack.pop().unwrap();
                let ghost vec1 = stack@;
                proof {
                    assert(stack@ =~= vec0.drop_last());
                    crate::shapes::lemma_seq_view_drop_last(vec1);
                }
                let lhs = stack.pop().unwrap();
                proof {
                    assert(stack@ =~= vec1.drop_last());
                    assert(rhs@ == st0.last());
                    assert(lhs@ == st0.drop_last().last());
                    assert(seq_view(stack@) == st0.drop_last().drop_last());
                }
                let combined: Prop;
                match &out[ti] {
                    PfTok::AndPf => combined = Prop::and(lhs, rhs),
                    PfTok::OrPf => combined = Prop::or(lhs, rhs),
                    PfTok::ImplicPf => combined = Prop::implic(lhs, rhs),
                    PfTok::IffPf => combined = Prop::iff(lhs, rhs),
                    PfTok::WordPf(_) => {
                        proof {
                            assert(false);
                        }
                        combined = Prop::and(lhs, rhs);
                    },
                }
                let ghost pre = stack@;
                let ghost cv = combined@;
                stack.push(combined);
                proof {
                    crate::shapes::lemma_seq_view_push(pre, stack@.last());
                    assert(seq_view(stack@) =~= st0.drop_last().drop_last().push(cv));
                    assert(pf_eval(pq.skip(ti as int), st0) == pf_eval(
                        pq.skip(ti as int + 1),
                        seq_view(stack@),
                    ));
                }
            }
            ti = ti + 1;
        }
        proof {
            assert(pq.skip(nt as int).len() == 0);
            assert(pf_eval(pq.skip(nt as int), seq_view(stack@)) == Some(seq_view(stack@)));
            assert(pf_eval(pq, Seq::<PropView>::empty()) == Some(seq_view(stack@)));
        }

        if stack.len() == 1 {
            let ghost fin = seq_view(stack@);
            proof {
                crate::shapes::lemma_seq_view_drop_last(stack@);
            }
            let p = stack.pop().unwrap();
            proof {
                assert(p@ == fin.last());
                assert(fin.last() == fin[0]);
                assert(parse_words(wv) == Some(fin[0]));
                assert(parse_spec(sv) == Some(p@));
            }
            Ok(p)
        } else {
            proof {
                assert(seq_view(stack@).len() != 1);
                assert(parse_words(wv) is None);
                assert(parse_spec(sv) is None);
            }
            Err("invalid sentence")
        }
    }
}

} // verus!
