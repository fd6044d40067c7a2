use crate::strutil::{dec_str_signed, push_char, push_dec_i32};
use vstd::prelude::*;
use vstd::string::StrSliceExecFns;
use vstd::string::StringExecFns;

verus! {

broadcast use vstd::seq::group_seq_axioms, vstd::std_specs::vec::group_vec_axioms;

/// A source position: zero-based line and column.
#[derive(Debug, Clone, Copy, PartialEq, Eq, Structural)]
pub struct Position {
    pub ln: usize,
    pub col: usize,
}

/// A value tagged with the source position where it starts.
#[derive(Debug, Clone, PartialEq)]
pub struct Located<T> {
    pub value: T,
    pub pos: Position,
}

/// One symbolic-expression node: a list, a word, an integer literal, a float
/// literal (kept as its source text), or a string literal.
#[derive(Debug, PartialEq)]
pub enum SExpr {
    Expr(Vec<Located<SExpr>>),
    Word(String),
    Int(i32),
    Float(String),
    Str(String),
}

/// A parse failure, tagged with a source position.
#[derive(Debug, Clone, Copy, PartialEq, Eq, Structural)]
pub struct ParseError {
    pub kind: ParseErrorKind,
    pub pos: Position,
}

/// The closed set of parse failures: a reserved symbol where a node was
/// expected, an unclosed list, an unterminated string, or a malformed
/// numeric literal.
#[derive(Debug, Clone, Copy, PartialEq, Eq, Structural)]
pub enum ParseErrorKind {
    Unexpected(char),
    Unclosed(char),
    UnclosedString,
    ParseFloatError,
    ParseIntError,
}

/// A node with its texts taken as plain text.
pub ghost struct NodeView {
    pub value: SExprView,
    pub pos: Position,
}

/// The abstract value of a node.
pub ghost enum SExprView {
    Expr(Seq<NodeView>),
    Word(Seq<char>),
    Int(i32),
    Float(Seq<char>),
    Str(Seq<char>),
}

/// The abstract value of a node.
pub open spec fn node_view(n: Located<SExpr>) -> NodeView
    decreases n,
{
    NodeView {
        value: match n.value {
            SExpr::Expr(es) => SExprView::Expr(nodes_view(es@)),
            SExpr::Word(w) => SExprView::Word(w@),
            SExpr::Int(v) => SExprView::Int(v),
            SExpr::Float(t) => SExprView::Float(t@),
            SExpr::Str(s) => SExprView::Str(s@),
        },
        pos: n.pos,
    }
}

/// The abstract values of a sequence of nodes.
pub open spec fn nodes_view(es: Seq<Located<SExpr>>) -> Seq<NodeView>
    decreases es,
{
    if es.len() == 0 {
        Seq::<NodeView>::empty()
    } else {
        nodes_view(es.drop_last()).push(node_view(es.last()))
    }
}

/// `nodes_view` maps the sequence element by element.
pub proof fn lemma_nodes_view(es: Seq<Located<SExpr>>)
    ensures
        nodes_view(es).len() == es.len(),
        forall|i: int| 0 <= i < es.len() ==> nodes_view(es)[i] == node_view(es[i]),
    decreases es,
{
    if es.len() > 0 {
        lemma_nodes_view(es.drop_last());
    }
}

/// The structural size of a node: one for an atom, one plus the sizes of the
/// children for a list.
pub open spec fn node_size(n: NodeView) -> nat
    decreases n,
{
    match n.value {
        SExprView::Expr(es) => 1 + nodes_size(es),
        _ => 1,
    }
}

/// The summed structural size of a sequence of nodes.
pub open spec fn nodes_size(es: Seq<NodeView>) -> nat
    decreases es,
{
    if es.len() == 0 {
        0
    } else {
        nodes_size(es.drop_last()) + node_size(es.last())
    }
}

/// Every element's size is bounded by the sequence's summed size.
pub proof fn lemma_nodes_size_elem(es: Seq<NodeView>, i: int)
    requires
        0 <= i < es.len(),
    ensures
        node_size(es[i]) <= nodes_size(es),
    decreases es.len(),
{
    if i == es.len() - 1 {
    } else {
        lemma_nodes_size_elem(es.drop_last(), i);
    }
}

// ---------------------------------------------------------------------------
// The specification-level scanner.
// ---------------------------------------------------------------------------
/// The scanner's abstract state: the whole text, the next index, and the
/// zero-based line and column of that index.
pub ghost struct LexSt {
    pub s: Seq<char>,
    pub i: int,
    pub ln: int,
    pub col: int,
}

/// A well-formed scanner state: index within the text, line and column no
/// larger than the number of characters consumed.
pub open spec fn lex_wf(st: LexSt) -> bool {
    0 <= st.i <= st.s.len() && 0 <= st.col <= st.i && 0 <= st.ln <= st.i
}

/// An ASCII whitespace character.
pub open spec fn is_ws_char(c: char) -> bool {
    c == ' ' || c == '\t' || c == '\n' || c == '\x0c' || c == '\r'
}

/// One of the three reserved symbols.
pub open spec fn is_sym_char(c: char) -> bool {
    c == '(' || c == ')' || c == '"'
}

/// An ASCII decimal digit.
pub open spec fn is_digit_char(c: char) -> bool {
    48 <= (c as u32) && (c as u32) <= 57
}

/// The numeric value of a digit character.
pub open spec fn digit_of(c: char) -> nat {
    ((c as u32) - 48) as nat
}

/// The position of a scanner state, as rendered into nodes and errors.
pub open spec fn lex_pos(st: LexSt) -> Position {
    Position { ln: st.ln as usize, col: st.col as usize }
}

/// Consumes one character: a line break starts a new line, anything else
/// moves one column right.
pub open spec fn lex_adv(st: LexSt) -> LexSt {
    if st.i < st.s.len() {
        if st.s[st.i] == '\n' {
            LexSt { s: st.s, i: st.i + 1, ln: st.ln + 1, col: 0 }
        } else {
            LexSt { s: st.s, i: st.i + 1, ln: st.ln, col: st.col + 1 }
        }
    } else {
        st
    }
}

/// Consumes leading ASCII whitespace.
pub open spec fn sp_skip_ws(st: LexSt) -> LexSt
    decreases st.s.len() - st.i,
{
    if st.i < st.s.len() && is_ws_char(st.s[st.i]) {
        sp_skip_ws(lex_adv(st))
    } else {
        st
    }
}

/// `sp_skip_ws` keeps the text, moves only forward, and preserves
/// well-formedness.
pub proof fn lemma_skip_ws(st: LexSt)
    ensures
        sp_skip_ws(st).s == st.s,
        sp_skip_ws(st).i >= st.i,
        lex_wf(st) ==> lex_wf(sp_skip_ws(st)),
        sp_skip_ws(st).i < st.s.len() ==> !is_ws_char(st.s[sp_skip_ws(st).i]),
    decreases st.s.len() - st.i,
{
    if st.i < st.s.len() && is_ws_char(st.s[st.i]) {
        lemma_skip_ws(lex_adv(st));
    }
}

/// Consumes the raw characters of a string literal, up to a closing quote
/// or the end of the text.
pub open spec fn sp_take_str_chars(st: LexSt) -> (Seq<char>, LexSt)
    decreases st.s.len() - st.i,
{
    if st.i < st.s.len() && st.s[st.i] != '"' {
        let (t, st2) = sp_take_str_chars(lex_adv(st));
        (seq![st.s[st.i]] + t, st2)
    } else {
        (Seq::<char>::empty(), st)
    }
}

/// Consumes a run of decimal digits.
pub open spec fn sp_take_digits(st: LexSt) -> (Seq<char>, LexSt)
    decreases st.s.len() - st.i,
{
    if st.i < st.s.len() && is_digit_char(st.s[st.i]) {
        let (t, st2) = sp_take_digits(lex_adv(st));
        (seq![st.s[st.i]] + t, st2)
    } else {
        (Seq::<char>::empty(), st)
    }
}

/// Consumes a run of word characters: anything but whitespace and the
/// reserved symbols.
pub open spec fn sp_take_word(st: LexSt) -> (Seq<char>, LexSt)
    decreases st.s.len() - st.i,
{
    if st.i < st.s.len() && !is_ws_char(st.s[st.i]) && !is_sym_char(st.s[st.i]) {
        let (t, st2) = sp_take_word(lex_adv(st));
        (seq![st.s[st.i]] + t, st2)
    } else {
        (Seq::<char>::empty(), st)
    }
}

/// The state facts shared by the three take functions; the run holds no
/// quote character.
pub proof fn lemma_take_str_chars(st: LexSt)
    ensures
        sp_take_str_chars(st).1.s == st.s,
        sp_take_str_chars(st).1.i >= st.i,
        lex_wf(st) ==> lex_wf(sp_take_str_chars(st).1),
        forall|j: int|
            0 <= j < sp_take_str_chars(st).0.len() ==> #[trigger] sp_take_str_chars(st).0[j]
                != '"',
    decreases st.s.len() - st.i,
{
    if st.i < st.s.len() && st.s[st.i] != '"' {
        lemma_take_str_chars(lex_adv(st));
    }
}

/// The state facts shared by the three take functions; a digit run holds
/// digit characters only.
pub proof fn lemma_take_digits(st: LexSt)
    ensures
        sp_take_digits(st).1.s == st.s,
        sp_take_digits(st).1.i >= st.i,
        lex_wf(st) ==> lex_wf(sp_take_digits(st).1),
        forall|j: int|
            0 <= j < sp_take_digits(st).0.len() ==> is_digit_char(#[trigger] sp_take_digits(st).0[j]),
    decreases st.s.len() - st.i,
{
    if st.i < st.s.len() && is_digit_char(st.s[st.i]) {
        lemma_take_digits(lex_adv(st));
    }
}

/// The state facts shared by the three take functions; the run holds word
/// characters only.
pub proof fn lemma_take_word(st: LexSt)
    ensures
        sp_take_word(st).1.s == st.s,
        sp_take_word(st).1.i >= st.i,
        lex_wf(st) ==> lex_wf(sp_take_word(st).1),
        forall|j: int|
            0 <= j < sp_take_word(st).0.len() ==> !is_ws_char(#[trigger] sp_take_word(st).0[j])
                && !is_sym_char(sp_take_word(st).0[j]),
    decreases st.s.len() - st.i,
{
    if st.i < st.s.len() && !is_ws_char(st.s[st.i]) && !is_sym_char(st.s[st.i]) {
        lemma_take_word(lex_adv(st));
    }
}

/// The value of a digit run read as a decimal number.
pub open spec fn digits_val(ds: Seq<char>) -> nat
    decreases ds.len(),
{
    if ds.len() == 0 {
        0
    } else {
        digits_val(ds.drop_last()) * 10 + digit_of(ds.last())
    }
}

/// Extending a digit run can only grow its value.
pub proof fn lemma_digits_val_prefix(ds: Seq<char>, i: int)
    requires
        0 <= i <= ds.len(),
    ensures
        digits_val(ds.take(i)) <= digits_val(ds),
    decreases ds.len() - i,
{
    if i < ds.len() {
        assert(ds.take(i + 1).drop_last() =~= ds.take(i));
        assert(digits_val(ds.take(i)) <= digits_val(ds.take(i + 1)));
        lemma_digits_val_prefix(ds, i + 1);
    } else {
        assert(ds.take(i) =~= ds);
    }
}

/// The outcome of scanning one node: a failure, the end of the text, or a
/// node together with the state after it.
pub ghost enum PNext {
    Fail(ParseError),
    Done(LexSt),
    Item(NodeView, LexSt),
}

/// Scans one node from the state: skips whitespace, then dispatches on the
/// first character as the grammar does.
pub open spec fn sp_parse_next(st: LexSt) -> PNext
    decreases st.s.len() - st.i, 1int,
    via sp_parse_next_dec
{
    let st1 = sp_skip_ws(st);
    if st1.i >= st1.s.len() {
        PNext::Done(st1)
    } else {
        let c = st1.s[st1.i];
        let pos = lex_pos(st1);
        let st2 = lex_adv(st1);
        if c == '(' {
            sp_list_items(st2, pos, Seq::<NodeView>::empty())
        } else if c == '"' {
            let (txt, st3) = sp_take_str_chars(st2);
            if st3.i >= st3.s.len() {
                PNext::Fail(ParseError { kind: ParseErrorKind::UnclosedString, pos: lex_pos(st3) })
            } else {
                PNext::Item(NodeView { value: SExprView::Str(txt), pos }, lex_adv(st3))
            }
        } else if is_digit_char(c) {
            let (ds, st3) = sp_take_digits(st2);
            if st3.i < st3.s.len() && st3.s[st3.i] == '.' {
                let st4 = lex_adv(st3);
                let (ds2, st5) = sp_take_digits(st4);
                PNext::Item(
                    NodeView {
                        value: SExprView::Float(seq![c] + ds + seq!['.'] + ds2),
                        pos,
                    },
                    st5,
                )
            } else {
                let num = seq![c] + ds;
                if digits_val(num) > i32::MAX as nat {
                    PNext::Fail(ParseError { kind: ParseErrorKind::ParseIntError, pos })
                } else {
                    PNext::Item(
                        NodeView { value: SExprView::Int(digits_val(num) as i32), pos },
                        st3,
                    )
                }
            }
        } else if !is_sym_char(c) {
            let (w, st3) = sp_take_word(st2);
            PNext::Item(NodeView { value: SExprView::Word(seq![c] + w), pos }, st3)
        } else {
            PNext::Fail(ParseError { kind: ParseErrorKind::Unexpected(c), pos })
        }
    }
}

/// Scans the children of a list after its opening parenthesis, up to the
/// closing parenthesis; reaching the end of the text first is an unclosed
/// list, reported at the opening position.
pub open spec fn sp_list_items(st: LexSt, open_pos: Position, acc: Seq<NodeView>) -> PNext
    decreases st.s.len() - st.i, 2int,
    via sp_list_items_dec
{
    if st.i >= st.s.len() {
        PNext::Fail(ParseError { kind: ParseErrorKind::Unclosed('('), pos: open_pos })
    } else if st.s[st.i] == ')' {
        PNext::Item(NodeView { value: SExprView::Expr(acc), pos: open_pos }, lex_adv(st))
    } else {
        match sp_parse_next(st) {
            PNext::Fail(e) => PNext::Fail(e),
            PNext::Done(st2) => PNext::Fail(
                ParseError { kind: ParseErrorKind::Unclosed('('), pos: open_pos },
            ),
            PNext::Item(n, st2) => {
                let st3 = sp_skip_ws(st2);
                if st3.s == st.s && st.i < st3.i <= st.s.len() {
                    sp_list_items(st3, open_pos, acc.push(n))
                } else {
                    PNext::Fail(ParseError { kind: ParseErrorKind::Unclosed('('), pos: open_pos })
                }
            },
        }
    }
}

#[via_fn]
proof fn sp_parse_next_dec(st: LexSt) {
    lemma_skip_ws(st);
}

#[via_fn]
proof fn sp_list_items_dec(st: LexSt, open_pos: Position, acc: Seq<NodeView>) {
}

/// A float node built from two digit runs is renderable.
pub proof fn lemma_float_item_renderable(c: char, ds: Seq<char>, ds2: Seq<char>, p: Position)
    requires
        is_digit_char(c),
        forall|j: int| 0 <= j < ds.len() ==> is_digit_char(#[trigger] ds[j]),
        forall|j: int| 0 <= j < ds2.len() ==> is_digit_char(#[trigger] ds2[j]),
    ensures
        renderable(
            NodeView {
                value: SExprView::Float(seq![c] + ds + seq!['.'] + ds2),
                pos: p,
            },
        ),
{
    let ft = seq![c] + ds + seq!['.'] + ds2;
    let dot: int = 1 + ds.len() as int;
    assert(('.' as u32) == 46);
    assert(ft[dot] == '.');
    assert forall|j: int| 0 <= j < ft.len() && j != dot implies is_digit_char(
        #[trigger] ft[j],
    ) by {
        if j == 0 {
            assert(ft[0] == c);
        } else if j < dot {
            assert(ft[j] == ds[j - 1]);
        } else {
            assert(ft[j] == ds2[j - dot - 1]);
        }
    }
    assert(float_shaped_at(ft, dot));
    lemma_first_dot(ft, dot);
    assert(renderable(NodeView { value: SExprView::Float(ft), pos: p }));
}

/// `sp_parse_next` keeps the text, moves only forward (strictly so when it
/// yields a node), preserves well-formedness, and yields only renderable
/// nodes.
#[verifier::rlimit(100)]
pub proof fn lemma_parse_next_state(st: LexSt)
    requires
        lex_wf(st),
    ensures
        sp_parse_next(st) matches PNext::Done(st2) ==> st2.s == st.s && st.i <= st2.i && lex_wf(
            st2,
        ),
        sp_parse_next(st) matches PNext::Item(n, st2) ==> st2.s == st.s && st.i < st2.i && lex_wf(
            st2,
        ) && renderable(n),
    decreases st.s.len() - st.i, 1int,
{
    lemma_skip_ws(st);
    let st1 = sp_skip_ws(st);
    if st1.i >= st1.s.len() {
    } else {
        let c = st1.s[st1.i];
        let st2 = lex_adv(st1);
        if c == '(' {
            assert(renderables(Seq::<NodeView>::empty()));
            lemma_list_items_state(st2, lex_pos(st1), Seq::<NodeView>::empty());
        } else if c == '"' {
            lemma_take_str_chars(st2);
            let (txt, st3) = sp_take_str_chars(st2);
            assert(renderable(NodeView { value: SExprView::Str(txt), pos: lex_pos(st1) }));
        } else if is_digit_char(c) {
            lemma_take_digits(st2);
            let (ds, st3) = sp_take_digits(st2);
            if st3.i < st3.s.len() && st3.s[st3.i] == '.' {
                lemma_take_digits(lex_adv(st3));
                let (ds2, st5) = sp_take_digits(lex_adv(st3));
                lemma_float_item_renderable(c, ds, ds2, lex_pos(st1));
            } else {
                let num = seq![c] + ds;
                if !(digits_val(num) > i32::MAX as nat) {
                    assert(digits_val(num) as i32 >= 0);
                    assert(renderable(
                        NodeView {
                            value: SExprView::Int(digits_val(num) as i32),
                            pos: lex_pos(st1),
                        },
                    ));
                }
            }
        } else if !is_sym_char(c) {
            let (w, st3) = sp_take_word(st2);
            lemma_take_word(st2);
            let wd = seq![c] + w;
            assert(wd[0] == c);
            assert forall|j: int| 0 <= j < wd.len() implies !is_ws_char(#[trigger] wd[j])
                && !is_sym_char(wd[j]) by {
                if j > 0 {
                    assert(wd[j] == w[j - 1]);
                }
            }
            assert(!is_digit_char(wd[0]));
            assert(renderable(NodeView { value: SExprView::Word(wd), pos: lex_pos(st1) }));
        }
    }
}

/// `sp_list_items` keeps the text, moves only forward, preserves
/// well-formedness, and, fed renderable nodes, yields a renderable list.
pub proof fn lemma_list_items_state(st: LexSt, open_pos: Position, acc: Seq<NodeView>)
    requires
        lex_wf(st),
        renderables(acc),
    ensures
        sp_list_items(st, open_pos, acc) matches PNext::Done(st2) ==> st2.s == st.s && st.i
            <= st2.i && lex_wf(st2),
        sp_list_items(st, open_pos, acc) matches PNext::Item(n, st2) ==> st2.s == st.s && st.i
            < st2.i && lex_wf(st2) && renderable(n),
    decreases st.s.len() - st.i, 2int,
{
    if st.i >= st.s.len() {
    } else if st.s[st.i] == ')' {
    } else {
        lemma_parse_next_state(st);
        match sp_parse_next(st) {
            PNext::Fail(e) => {},
            PNext::Done(st2) => {},
            PNext::Item(n, st2) => {
                lemma_skip_ws(st2);
                let st3 = sp_skip_ws(st2);
                if st3.s == st.s && st.i < st3.i <= st.s.len() {
                    assert(acc.push(n).drop_last() =~= acc);
                    assert(renderables(acc.push(n)));
                    lemma_list_items_state(st3, open_pos, acc.push(n));
                }
            },
        }
    }
}

/// Scans nodes until the text is exhausted, collecting them in order; the
/// first failure wins.
pub open spec fn sp_parse_all(st: LexSt, acc: Seq<NodeView>) -> Result<Seq<NodeView>, ParseError>
    decreases st.s.len() - st.i, 3int,
    via sp_parse_all_dec
{
    match sp_parse_next(st) {
        PNext::Fail(e) => Err(e),
        PNext::Done(st2) => Ok(acc),
        PNext::Item(n, st2) => {
            if st2.s == st.s && st.i < st2.i <= st.s.len() {
                sp_parse_all(st2, acc.push(n))
            } else {
                Err(ParseError { kind: ParseErrorKind::Unclosed('('), pos: lex_pos(st2) })
            }
        },
    }
}

#[via_fn]
proof fn sp_parse_all_dec(st: LexSt, acc: Seq<NodeView>) {
}

/// The scanner state at the start of a text.
pub open spec fn lex_init(s: Seq<char>) -> LexSt {
    LexSt { s, i: 0, ln: 0, col: 0 }
}

/// The parse of a whole text: its top-level nodes in order, or the first
/// failure.
pub open spec fn sp_parse(s: Seq<char>) -> Result<Seq<NodeView>, ParseError> {
    sp_parse_all(lex_init(s), Seq::<NodeView>::empty())
}


// ---------------------------------------------------------------------------
// The executable scanner.
// ---------------------------------------------------------------------------
/// Whether `c` is ASCII whitespace.
fn ws_char(c: char) -> (r: bool)
    ensures
        r == is_ws_char(c),
{
    c == ' ' || c == '\t' || c == '\n' || c == '\x0c' || c == '\r'
}

/// Whether `c` is one of the three reserved symbols.
fn sym_char(c: char) -> (r: bool)
    ensures
        r == is_sym_char(c),
{
    c == '(' || c == ')' || c == '"'
}

/// Whether `c` is an ASCII decimal digit.
fn digit_char(c: char) -> (r: bool)
    ensures
        r == is_digit_char(c),
{
    let u = c as u32;
    48 <= u && u <= 57
}

/// Reads a run of decimal digits as a 32-bit signed value; fails exactly
/// when the value does not fit.
fn parse_digits_i32(s: &str) -> (r: Result<i32, ()>)
    requires
        forall|j: int| 0 <= j < s@.len() ==> is_digit_char(#[trigger] s@[j]),
    ensures
        r == (if digits_val(s@) > i32::MAX as nat {
            Err::<i32, ()>(())
        } else {
            Ok::<i32, ()>(digits_val(s@) as i32)
        }),
{
    let len = s.unicode_len();
    let mut val: u64 = 0;
    let mut i: usize = 0;
    while i < len
        invariant
            len == s@.len(),
            i <= len,
            forall|j: int| 0 <= j < s@.len() ==> is_digit_char(#[trigger] s@[j]),
            val == digits_val(s@.take(i as int)),
            val <= i32::MAX as u64,
        decreases len - i,
    {
        let c = s.get_char(i);
        let d = (c as u32) - 48;
        proof {
            assert(s@.take(i + 1).drop_last() =~= s@.take(i as int));
            assert(s@.take(i + 1).last() == s@[i as int]);
        }
        val = val * 10 + (d as u64);
        if val > i32::MAX as u64 {
            proof {
                lemma_digits_val_prefix(s@, i + 1);
            }
            return Err(());
        }
        i = i + 1;
    }
    proof {
        assert(s@.take(len as int) =~= s@);
    }
    Ok(val as i32)
}

/// The single-pass scanner: the text, the index of the next character, and
/// the zero-based line and column of that index.
#[derive(Debug, Clone)]
pub struct Lexer<'s> {
    pub text: &'s str,
    pub idx: usize,
    pub ln: usize,
    pub col: usize,
}

impl<'s> From<&'s str> for Lexer<'s> {
    /// Starts a scanner at the beginning of the text.
    fn from(value: &'s str) -> (r: Self) {
        Lexer { text: value, idx: 0, ln: 0, col: 0 }
    }
}

impl<'s> vstd::std_specs::convert::FromSpecImpl<&'s str> for Lexer<'s> {
    open spec fn obeys_from_spec() -> bool {
        true
    }

    open spec fn from_spec(value: &'s str) -> Lexer<'s> {
        Lexer { text: value, idx: 0, ln: 0, col: 0 }
    }
}

impl<'s> Lexer<'s> {
    /// The abstract state of the scanner.
    pub open spec fn st(&self) -> LexSt {
        LexSt { s: self.text@, i: self.idx as int, ln: self.ln as int, col: self.col as int }
    }

    /// The scanner stays within its text, and its line and column never
    /// outrun the characters consumed.
    pub open spec fn wf(&self) -> bool {
        self.idx <= self.text@.len() && self.col <= self.idx && self.ln <= self.idx
    }

    /// Consumes and returns the next character, tracking line and column.
    pub fn next(&mut self) -> (r: Option<char>)
        requires
            old(self).wf(),
        ensures
            final(self).wf(),
            final(self).text == old(self).text,
            old(self).idx < old(self).text@.len() ==> r == Some(old(self).text@[old(self).idx as int])
                && final(self).st() == lex_adv(old(self).st()),
            old(self).idx >= old(self).text@.len() ==> r == Option::<char>::None && *final(self)
                == *old(self),
    {
        let len = self.text.unicode_len();
        if self.idx >= len {
            return Option::None;
        }
        let c = self.text.get_char(self.idx);
        self.idx = self.idx + 1;
        if c == '\n' {
            self.ln = self.ln + 1;
            self.col = 0;
        } else {
            self.col = self.col + 1;
        }
        Some(c)
    }

    /// Returns the next character without consuming it.
    pub fn peek(&self) -> (r: Option<char>)
        requires
            self.wf(),
        ensures
            self.idx < self.text@.len() ==> r == Some(self.text@[self.idx as int]),
            self.idx >= self.text@.len() ==> r == Option::<char>::None,
    {
        let len = self.text.unicode_len();
        if self.idx >= len {
            Option::None
        } else {
            Some(self.text.get_char(self.idx))
        }
    }

    /// The current position.
    pub fn pos(&mut self) -> (r: Position)
        ensures
            *final(self) == *old(self),
            r == lex_pos(old(self).st()),
    {
        Position { ln: self.ln, col: self.col }
    }

    /// Consumes leading ASCII whitespace.
    fn skip_ws(&mut self)
        requires
            old(self).wf(),
        ensures
            final(self).wf(),
            final(self).text == old(self).text,
            final(self).st() == sp_skip_ws(old(self).st()),
            old(self).idx <= final(self).idx,
    {
        loop
            invariant
                self.wf(),
                self.text == old(self).text,
                old(self).idx <= self.idx,
                sp_skip_ws(old(self).st()) == sp_skip_ws(self.st()),
            ensures
                self.wf(),
                self.text == old(self).text,
                old(self).idx <= self.idx,
                self.st() == sp_skip_ws(old(self).st()),
            decreases self.text@.len() - self.idx,
        {
            match self.peek() {
                Some(c) => {
                    if ws_char(c) {
                        self.next();
                    } else {
                        break;
                    }
                },
                Option::None => {
                    break;
                },
            }
        }
    }

    /// Scans one node: skips whitespace, then reads a list, a string, a
    /// number or a word; yields nothing at the end of the text.
    pub fn parse_next(&mut self) -> (r: Result<Option<Located<SExpr>>, ParseError>)
        requires
            old(self).wf(),
        ensures
            final(self).wf(),
            final(self).text == old(self).text,
            old(self).idx <= final(self).idx,
            sp_parse_next(old(self).st()) matches PNext::Done(st2) ==> r == Ok::<
                Option<Located<SExpr>>,
                ParseError,
            >(Option::None) && final(self).st() == st2,
            sp_parse_next(old(self).st()) matches PNext::Item(n, st2) ==> (r matches Ok(o) && o
                matches Some(nd) && node_view(nd) == n) && final(self).st() == st2,
            sp_parse_next(old(self).st()) matches PNext::Fail(e) ==> r == Err::<
                Option<Located<SExpr>>,
                ParseError,
            >(e) && old(self).idx < final(self).idx,
        decreases old(self).text@.len() - old(self).idx,
    {
        proof {
            lemma_skip_ws(old(self).st());
        }
        self.skip_ws();
        let ghost st1 = self.st();
        let pos = self.pos();
        match self.next() {
            Option::None => {
                return Ok(Option::None);
            },
            Some(c) => {
                let ghost st2 = self.st();
                if c == '(' {
                    let mut exprs: Vec<Located<SExpr>> = Vec::new();
                    proof {
                        assert(nodes_view(exprs@) =~= Seq::<NodeView>::empty());
                    }
                    loop
                        invariant
                            self.wf(),
                            self.text == old(self).text,
                            old(self).idx < self.idx,
                            sp_parse_next(old(self).st()) == sp_list_items(
                                self.st(),
                                pos,
                                nodes_view(exprs@),
                            ),
                        decreases self.text@.len() - self.idx,
                    {
                        let ghost pre = self.st();
                        match self.peek() {
                            Option::None => {
                                return Err(
                                    ParseError { kind: ParseErrorKind::Unclosed('('), pos },
                                );
                            },
                            Some(c2) => {
                                if c2 == ')' {
                                    self.next();
                                    return Ok(
                                        Some(Located { value: SExpr::Expr(exprs), pos }),
                                    );
                                }
                                proof {
                                    lemma_parse_next_state(pre);
                                }
                                match self.parse_next() {
                                    Err(e) => {
                                        return Err(e);
                                    },
                                    Ok(Option::None) => {
                                        return Err(
                                            ParseError {
                                                kind: ParseErrorKind::Unclosed('('),
                                                pos,
                                            },
                                        );
                                    },
                                    Ok(Some(node)) => {
                                        let ghost mid = self.st();
                                        proof {
                                            lemma_skip_ws(mid);
                                        }
                                        let ghost acc_pre = nodes_view(exprs@);
                                        let ghost exprs_pre = exprs@;
                                        exprs.push(node);
                                        proof {
                                            assert(exprs@.drop_last() =~= exprs_pre);
                                            assert(nodes_view(exprs@) == acc_pre.push(
                                                node_view(node),
                                            ));
                                        }
                                        self.skip_ws();
                                    },
                                }
                            },
                        }
                    }
                } else if c == '"' {
                    let mut string = String::new();
                    loop
                        invariant
                            self.wf(),
                            self.text == old(self).text,
                            old(self).idx < self.idx,
                            sp_take_str_chars(st2).0 == string@ + sp_take_str_chars(
                                self.st(),
                            ).0,
                            sp_take_str_chars(st2).1 == sp_take_str_chars(self.st()).1,
                        ensures
                            self.wf(),
                            self.text == old(self).text,
                            old(self).idx < self.idx,
                            sp_take_str_chars(st2).0 == string@ + sp_take_str_chars(
                                self.st(),
                            ).0,
                            sp_take_str_chars(st2).1 == self.st(),
                            sp_take_str_chars(self.st()).0 == Seq::<char>::empty(),
                        decreases self.text@.len() - self.idx,
                    {
                        match self.peek() {
                            Option::None => {
                                break;
                            },
                            Some(c2) => {
                                if c2 == '"' {
                                    break;
                                }
                                match self.next() {
                                    Some(c3) => {
                                        let ghost s_pre = string@;
                                        push_char(&mut string, c3);
                                        proof {
                                            assert(string@ =~= s_pre + seq![c3]);
                                            assert(string@ + sp_take_str_chars(self.st()).0
                                                =~= s_pre + (seq![c3]
                                                + sp_take_str_chars(self.st()).0));
                                        }
                                    },
                                    Option::None => {
                                        proof {
                                            assert(false);
                                        }
                                    },
                                }
                            },
                        }
                    }
                    let ghost st3 = self.st();
                    proof {
                        assert(sp_take_str_chars(st2).0 =~= string@);
                    }
                    match self.next() {
                        Option::None => {
                            let p = self.pos();
                            return Err(ParseError { kind: ParseErrorKind::UnclosedString, pos: p });
                        },
                        Some(cq) => {
                            if cq != '"' {
                                let p = self.pos();
                                return Err(
                                    ParseError { kind: ParseErrorKind::UnclosedString, pos: p },
                                );
                            }
                            return Ok(Some(Located { value: SExpr::Str(string), pos }));
                        },
                    }
                } else if digit_char(c) {
                    let mut number = String::new();
                    push_char(&mut number, c);
                    proof {
                        assert(number@ =~= seq![c]);
                    }
                    loop
                        invariant
                            self.wf(),
                            self.text == old(self).text,
                            old(self).idx < self.idx,
                            number@.len() >= 1,
                            number@[0] == c,
                            seq![c] + sp_take_digits(st2).0 == number@ + sp_take_digits(
                                self.st(),
                            ).0,
                            sp_take_digits(st2).1 == sp_take_digits(self.st()).1,
                        ensures
                            self.wf(),
                            self.text == old(self).text,
                            old(self).idx < self.idx,
                            seq![c] + sp_take_digits(st2).0 == number@ + sp_take_digits(
                                self.st(),
                            ).0,
                            sp_take_digits(st2).1 == self.st(),
                            sp_take_digits(self.st()).0 == Seq::<char>::empty(),
                        decreases self.text@.len() - self.idx,
                    {
                        match self.peek() {
                            Option::None => {
                                break;
                            },
                            Some(c2) => {
                                if !digit_char(c2) {
                                    break;
                                }
                                match self.next() {
                                    Some(c3) => {
                                        let ghost n_pre = number@;
                                        push_char(&mut number, c3);
                                        proof {
                                            assert(number@ =~= n_pre + seq![c3]);
                                            assert(number@ + sp_take_digits(self.st()).0
                                                =~= n_pre + (seq![c3]
                                                + sp_take_digits(self.st()).0));
                                        }
                                    },
                                    Option::None => {
                                        proof {
                                            assert(false);
                                        }
                                    },
                                }
                            },
                        }
                    }
                    let ghost st3 = self.st();
                    proof {
                        assert(seq![c] + sp_take_digits(st2).0 =~= number@);
                    }
                    let dot = match self.peek() {
                        Some(c2) => c2 == '.',
                        Option::None => false,
                    };
                    if dot {
                        match self.next() {
                            Some(c3) => {
                                push_char(&mut number, c3);
                            },
                            Option::None => {
                                proof {
                                    assert(false);
                                }
                            },
                        }
                        let ghost st4 = self.st();
                        let ghost frac_base = number@;
                        loop
                            invariant
                                self.wf(),
                                self.text == old(self).text,
                                old(self).idx < self.idx,
                                frac_base + sp_take_digits(st4).0 == number@ + sp_take_digits(
                                    self.st(),
                                ).0,
                                sp_take_digits(st4).1 == sp_take_digits(self.st()).1,
                            ensures
                                self.wf(),
                                self.text == old(self).text,
                                old(self).idx < self.idx,
                                frac_base + sp_take_digits(st4).0 == number@ + sp_take_digits(
                                    self.st(),
                                ).0,
                                sp_take_digits(st4).1 == self.st(),
                                sp_take_digits(self.st()).0 == Seq::<char>::empty(),
                            decreases self.text@.len() - self.idx,
                        {
                            match self.peek() {
                                Option::None => {
                                    break;
                                },
                                Some(c2) => {
                                    if !digit_char(c2) {
                                        break;
                                    }
                                    match self.next() {
                                        Some(c3) => {
                                            let ghost n_pre = number@;
                                            push_char(&mut number, c3);
                                            proof {
                                                assert(number@ =~= n_pre + seq![c3]);
                                                assert(number@ + sp_take_digits(self.st()).0
                                                    =~= n_pre + (seq![c3]
                                                    + sp_take_digits(self.st()).0));
                                            }
                                        },
                                        Option::None => {
                                            proof {
                                                assert(false);
                                            }
                                        },
                                    }
                                },
                            }
                        }
                        proof {
                            assert(frac_base + sp_take_digits(st4).0 =~= number@);
                            assert(frac_base =~= seq![c] + sp_take_digits(st2).0 + seq!['.']);
                            assert(number@ =~= seq![c] + sp_take_digits(st2).0 + seq!['.']
                                + sp_take_digits(st4).0);
                        }
                        return Ok(Some(Located { value: SExpr::Float(number), pos }));
                    } else {
                        proof {
                            lemma_take_digits(st2);
                            assert(forall|j: int|
                                0 <= j < number@.len() ==> is_digit_char(#[trigger] number@[j]));
                        }
                        match parse_digits_i32(number.as_str()) {
                            Err(_) => {
                                return Err(
                                    ParseError { kind: ParseErrorKind::ParseIntError, pos },
                                );
                            },
                            Ok(v) => {
                                return Ok(Some(Located { value: SExpr::Int(v), pos }));
                            },
                        }
                    }
                } else if !sym_char(c) {
                    let mut word = String::new();
                    push_char(&mut word, c);
                    proof {
                        assert(word@ =~= seq![c]);
                    }
                    loop
                        invariant
                            self.wf(),
                            self.text == old(self).text,
                            old(self).idx < self.idx,
                            seq![c] + sp_take_word(st2).0 == word@ + sp_take_word(self.st()).0,
                            sp_take_word(st2).1 == sp_take_word(self.st()).1,
                        ensures
                            self.wf(),
                            self.text == old(self).text,
                            old(self).idx < self.idx,
                            seq![c] + sp_take_word(st2).0 == word@ + sp_take_word(self.st()).0,
                            sp_take_word(st2).1 == self.st(),
                            sp_take_word(self.st()).0 == Seq::<char>::empty(),
                        decreases self.text@.len() - self.idx,
                    {
                        match self.peek() {
                            Option::None => {
                                break;
                            },
                            Some(c2) => {
                                if ws_char(c2) || sym_char(c2) {
                                    break;
                                }
                                match self.next() {
                                    Some(c3) => {
                                        let ghost w_pre = word@;
                                        push_char(&mut word, c3);
                                        proof {
                                            assert(word@ =~= w_pre + seq![c3]);
                                            assert(word@ + sp_take_word(self.st()).0 =~= w_pre
                                                + (seq![c3] + sp_take_word(self.st()).0));
                                        }
                                    },
                                    Option::None => {
                                        proof {
                                            assert(false);
                                        }
                                    },
                                }
                            },
                        }
                    }
                    proof {
                        assert(seq![c] + sp_take_word(st2).0 =~= word@);
                    }
                    return Ok(Some(Located { value: SExpr::Word(word), pos }));
                } else {
                    return Err(ParseError { kind: ParseErrorKind::Unexpected(c), pos });
                }
            },
        }
    }

    /// Scans the whole text into its top-level nodes, in order.
    pub fn parse(&mut self) -> (r: Result<Vec<Located<SExpr>>, ParseError>)
        requires
            old(self).wf(),
        ensures
            sp_parse_all(old(self).st(), Seq::<NodeView>::empty()) matches Ok(ns) ==> (r matches Ok(
                v,
            ) && nodes_view(v@) == ns),
            sp_parse_all(old(self).st(), Seq::<NodeView>::empty()) matches Err(e) ==> r == Err::<
                Vec<Located<SExpr>>,
                ParseError,
            >(e),
    {
        let mut exprs: Vec<Located<SExpr>> = Vec::new();
        proof {
            assert(nodes_view(exprs@) =~= Seq::<NodeView>::empty());
        }
        loop
            invariant
                self.wf(),
                sp_parse_all(old(self).st(), Seq::<NodeView>::empty()) == sp_parse_all(
                    self.st(),
                    nodes_view(exprs@),
                ),
            decreases self.text@.len() - self.idx,
        {
            let ghost pre = self.st();
            proof {
                lemma_parse_next_state(pre);
            }
            match self.parse_next() {
                Err(e) => {
                    return Err(e);
                },
                Ok(Option::None) => {
                    return Ok(exprs);
                },
                Ok(Some(node)) => {
                    let ghost acc_pre = nodes_view(exprs@);
                    let ghost exprs_pre = exprs@;
                    exprs.push(node);
                    proof {
                        assert(exprs@.drop_last() =~= exprs_pre);
                        assert(nodes_view(exprs@) == acc_pre.push(node_view(node)));
                    }
                },
            }
        }
    }
}

/// Parses a whole source text into its top-level nodes, or the first
/// failure.
pub fn parse(code: &str) -> (r: Result<Vec<Located<SExpr>>, ParseError>)
    ensures
        sp_parse(code@) matches Ok(ns) ==> (r matches Ok(v) && nodes_view(v@) == ns),
        sp_parse(code@) matches Err(e) ==> r == Err::<Vec<Located<SExpr>>, ParseError>(e),
{
    let mut lexer = Lexer::from(code);
    lexer.parse()
}


/// The message text of a parse failure.
pub open spec fn parse_error_kind_text(k: ParseErrorKind) -> Seq<char> {
    match k {
        ParseErrorKind::Unexpected(c) => "unexpected '"@ + seq![c] + "'"@,
        ParseErrorKind::Unclosed(c) => "unclosed '"@ + seq![c] + "'"@,
        ParseErrorKind::UnclosedString => "unclosed string"@,
        ParseErrorKind::ParseFloatError => "error while parsing float"@,
        ParseErrorKind::ParseIntError => "error while parsing int"@,
    }
}

/// The rendered diagnostic of a parse failure: one-based line and column,
/// then the message.
pub open spec fn parse_error_text(e: ParseError) -> Seq<char> {
    crate::strutil::dec_str((e.pos.ln + 1) as nat) + ":"@ + crate::strutil::dec_str(
        (e.pos.col + 1) as nat,
    ) + ": "@ + parse_error_kind_text(e.kind)
}

impl ParseError {
    /// Renders the diagnostic line: one-based position, then the message.
    pub fn render(&self) -> (out: String)
        requires
            self.pos.ln < usize::MAX,
            self.pos.col < usize::MAX,
        ensures
            out@ == parse_error_text(*self),
    {
        let mut out = String::new();
        crate::strutil::push_dec_usize(&mut out, self.pos.ln + 1);
        out.append(":");
        crate::strutil::push_dec_usize(&mut out, self.pos.col + 1);
        out.append(": ");
        match self.kind {
            ParseErrorKind::Unexpected(c) => {
                out.append("unexpected '");
                push_char(&mut out, c);
                out.append("'");
            },
            ParseErrorKind::Unclosed(c) => {
                out.append("unclosed '");
                push_char(&mut out, c);
                out.append("'");
            },
            ParseErrorKind::UnclosedString => {
                out.append("unclosed string");
            },
            ParseErrorKind::ParseFloatError => {
                out.append("error while parsing float");
            },
            ParseErrorKind::ParseIntError => {
                out.append("error while parsing int");
            },
        }
        proof {
            assert(out@ =~= parse_error_text(*self));
        }
        out
    }
}

/// The textual form of a node: lists in parentheses with children joined by
/// single spaces, words and float texts verbatim, integers in decimal,
/// strings between plain quotes.
pub open spec fn node_text(n: NodeView) -> Seq<char>
    decreases n,
{
    match n.value {
        SExprView::Expr(es) => "("@ + nodes_join_text(es) + ")"@,
        SExprView::Word(w) => w,
        SExprView::Int(v) => dec_str_signed(v as int),
        SExprView::Float(t) => t,
        SExprView::Str(s) => "\""@ + s + "\""@,
    }
}

/// The children of a list joined by single spaces.
pub open spec fn nodes_join_text(es: Seq<NodeView>) -> Seq<char>
    decreases es,
{
    if es.len() == 0 {
        Seq::<char>::empty()
    } else if es.len() == 1 {
        node_text(es[0])
    } else {
        nodes_join_text(es.drop_last()) + " "@ + node_text(es.last())
    }
}

impl Located<SExpr> {
    /// Renders the node back into source text.
    pub fn render(&self) -> (out: String)
        ensures
            out@ == node_text(node_view(*self)),
        decreases node_size(node_view(*self)),
    {
        let ghost nv = node_view(*self);
        match &self.value {
            SExpr::Expr(es) => {
                let ghost evs = nodes_view(es@);
                proof {
                    lemma_nodes_view(es@);
                }
                let mut out = "(".to_owned();
                let mut i: usize = 0;
                while i < es.len()
                    invariant
                        i <= es@.len(),
                        nv == node_view(*self),
                        evs == nodes_view(es@),
                        evs.len() == es@.len(),
                        out@ == "("@ + nodes_join_text(evs.take(i as int)),
                        nv.value == SExprView::Expr(evs),
                        forall|j: int| 0 <= j < es@.len() ==> evs[j] == node_view(es@[j]),
                    decreases es@.len() - i,
                {
                    proof {
                        assert(evs.take(i + 1).drop_last() =~= evs.take(i as int));
                        assert(evs.take(i + 1).last() == node_view(es@[i as int]));
                        if i == 0 {
                            assert(evs.take(1)[0] == node_view(es@[0]));
                        }
                        lemma_nodes_size_elem(evs, i as int);
                        assert(node_size(nv) == 1 + nodes_size(evs));
                    }
                    if i > 0 {
                        out.append(" ");
                    }
                    let r = es[i].render();
                    out.append(r.as_str());
                    proof {
                        assert(out@ =~= "("@ + nodes_join_text(evs.take(i + 1)));
                    }
                    i = i + 1;
                }
                out.append(")");
                proof {
                    assert(evs.take(es@.len() as int) =~= evs);
                    assert(out@ =~= node_text(nv));
                }
                out
            },
            SExpr::Word(w) => w.clone(),
            SExpr::Int(v) => {
                let mut out = String::new();
                push_dec_i32(&mut out, *v);
                proof {
                    assert(out@ =~= node_text(nv));
                }
                out
            },
            SExpr::Float(t) => t.clone(),
            SExpr::Str(s) => {
                let mut out = "\"".to_owned();
                out.append(s.as_str());
                out.append("\"");
                proof {
                    assert(out@ =~= node_text(nv));
                }
                out
            },
        }
    }
}


/// A run that is digits to the end of the text is consumed whole, moving
/// the column by its length.
pub proof fn lemma_take_digits_full(st: LexSt)
    requires
        lex_wf(st),
        forall|j: int| st.i <= j < st.s.len() ==> is_digit_char(#[trigger] st.s[j]),
    ensures
        sp_take_digits(st).0 == st.s.subrange(st.i, st.s.len() as int),
        sp_take_digits(st).1 == (LexSt {
            s: st.s,
            i: st.s.len() as int,
            ln: st.ln,
            col: st.col + (st.s.len() - st.i),
        }),
    decreases st.s.len() - st.i,
{
    if st.i < st.s.len() {
        assert(is_digit_char(st.s[st.i]));
        assert(('\n' as u32) == 10);
        assert(st.s[st.i] != '\n');
        lemma_take_digits_full(lex_adv(st));
        assert(sp_take_digits(st).0 =~= st.s.subrange(st.i, st.s.len() as int));
    } else {
        assert(st.s.subrange(st.i, st.s.len() as int) =~= Seq::<char>::empty());
        assert(sp_take_digits(st).1 == st);
    }
}

/// The textual round trip of an integer node: parsing the rendered text of
/// a nonnegative integer node at the origin yields exactly that node back.
pub proof fn lemma_int_node_text_round_trip(v: i32)
    requires
        0 <= v,
    ensures
        ({
            let n = NodeView { value: SExprView::Int(v), pos: Position { ln: 0, col: 0 } };
            sp_parse(node_text(n)) == Ok::<Seq<NodeView>, ParseError>(seq![n])
        }),
{
    let n = NodeView { value: SExprView::Int(v), pos: Position { ln: 0, col: 0 } };
    let s = node_text(n);
    crate::strutil::lemma_dec_str_digits(v as nat);
    crate::strutil::lemma_dec_str_value(v as nat);
    assert(s == crate::strutil::dec_str(v as nat));
    let st0 = lex_init(s);
    assert((' ' as u32) == 32);
    assert(('\t' as u32) == 9);
    assert(('\n' as u32) == 10);
    assert(('\x0c' as u32) == 12);
    assert(('\r' as u32) == 13);
    assert(('(' as u32) == 40);
    assert((')' as u32) == 41);
    assert(('"' as u32) == 34);
    assert(is_digit_char(s[0]));
    assert(!is_ws_char(s[0]));
    assert(s[0] != '(' && s[0] != '"');
    assert(sp_skip_ws(st0) == st0);
    let st2 = lex_adv(st0);
    assert(forall|j: int| st2.i <= j < st2.s.len() ==> is_digit_char(#[trigger] st2.s[j]));
    lemma_take_digits_full(st2);
    let ds = sp_take_digits(st2).0;
    let st3 = sp_take_digits(st2).1;
    assert(st3.i == s.len());
    assert(seq![s[0]] + ds =~= s);
    assert(digits_val(s) == v as nat);
    assert(!(digits_val(seq![s[0]] + ds) > i32::MAX as nat));
    assert(lex_pos(st0) == n.pos);
    assert(sp_parse_next(st0) == PNext::Item(n, st3));
    assert(sp_skip_ws(st3) == st3);
    assert(sp_parse_next(st3) == PNext::Done(st3));
    assert(sp_parse_all(st3, seq![n]) == Ok::<Seq<NodeView>, ParseError>(seq![n]));
    assert(Seq::<NodeView>::empty().push(n) =~= seq![n]);
    assert(s.len() >= 1);
    assert(sp_parse_all(st0, Seq::<NodeView>::empty()) == sp_parse_all(st3, seq![n]));
}


/// A run of word characters reaching the end of the text is consumed whole.
pub proof fn lemma_take_word_full(st: LexSt)
    requires
        lex_wf(st),
        forall|j: int|
            st.i <= j < st.s.len() ==> !is_ws_char(#[trigger] st.s[j]) && !is_sym_char(st.s[j]),
    ensures
        sp_take_word(st).0 == st.s.subrange(st.i, st.s.len() as int),
        sp_take_word(st).1.s == st.s,
        sp_take_word(st).1.i == st.s.len(),
        lex_wf(sp_take_word(st).1),
    decreases st.s.len() - st.i,
{
    if st.i < st.s.len() {
        lemma_take_word_full(lex_adv(st));
        assert(sp_take_word(st).0 =~= st.s.subrange(st.i, st.s.len() as int));
    } else {
        assert(st.s.subrange(st.i, st.s.len() as int) =~= Seq::<char>::empty());
    }
}

/// The textual round trip of a word node: parsing the rendered text of a
/// word at the origin yields exactly that node back, provided the word is
/// nonempty, does not start with a digit, and holds no whitespace or
/// reserved symbol.
pub proof fn lemma_word_node_text_round_trip(w: Seq<char>)
    requires
        w.len() >= 1,
        !is_digit_char(w[0]),
        forall|j: int| 0 <= j < w.len() ==> !is_ws_char(#[trigger] w[j]) && !is_sym_char(w[j]),
    ensures
        ({
            let n = NodeView { value: SExprView::Word(w), pos: Position { ln: 0, col: 0 } };
            sp_parse(node_text(n)) == Ok::<Seq<NodeView>, ParseError>(seq![n])
        }),
{
    let n = NodeView { value: SExprView::Word(w), pos: Position { ln: 0, col: 0 } };
    let s = node_text(n);
    assert(s == w);
    let st0 = lex_init(s);
    assert(sp_skip_ws(st0) == st0);
    let st2 = lex_adv(st0);
    lemma_take_word_full(st2);
    let rest = sp_take_word(st2).0;
    let st3 = sp_take_word(st2).1;
    assert(seq![s[0]] + rest =~= w);
    assert(lex_pos(st0) == n.pos);
    assert(sp_parse_next(st0) == PNext::Item(n, st3));
    assert(sp_skip_ws(st3) == st3);
    assert(sp_parse_next(st3) == PNext::Done(st3));
    assert(sp_parse_all(st3, seq![n]) == Ok::<Seq<NodeView>, ParseError>(seq![n]));
    assert(Seq::<NodeView>::empty().push(n) =~= seq![n]);
    assert(sp_parse_all(st0, Seq::<NodeView>::empty()) == sp_parse_all(st3, seq![n]));
}

/// Raw string characters before a closing quote are consumed up to it.
pub proof fn lemma_take_str_to(st: LexSt, stop: int)
    requires
        lex_wf(st),
        st.i <= stop < st.s.len(),
        forall|j: int| st.i <= j < stop ==> #[trigger] st.s[j] != '"',
        st.s[stop] == '"',
    ensures
        sp_take_str_chars(st).0 == st.s.subrange(st.i, stop),
        sp_take_str_chars(st).1.s == st.s,
        sp_take_str_chars(st).1.i == stop,
        lex_wf(sp_take_str_chars(st).1),
    decreases st.s.len() - st.i,
{
    if st.i < stop {
        lemma_take_str_to(lex_adv(st), stop);
        assert(sp_take_str_chars(st).0 =~= st.s.subrange(st.i, stop));
    } else {
        assert(st.s.subrange(st.i, stop) =~= Seq::<char>::empty());
    }
}

/// The textual round trip of a string node: parsing the rendered text of a
/// string literal at the origin yields exactly that node back, provided its
/// text holds no quote character.
pub proof fn lemma_string_node_text_round_trip(t: Seq<char>)
    requires
        forall|j: int| 0 <= j < t.len() ==> #[trigger] t[j] != '"',
    ensures
        ({
            let n = NodeView { value: SExprView::Str(t), pos: Position { ln: 0, col: 0 } };
            sp_parse(node_text(n)) == Ok::<Seq<NodeView>, ParseError>(seq![n])
        }),
{
    let n = NodeView { value: SExprView::Str(t), pos: Position { ln: 0, col: 0 } };
    let s = node_text(n);
    reveal_strlit("\"");
    assert("\""@ =~= seq!['"']);
    assert(s =~= seq!['"'] + t + seq!['"']);
    assert(s.len() == t.len() + 2);
    let st0 = lex_init(s);
    assert((' ' as u32) == 32);
    assert(('\t' as u32) == 9);
    assert(('\n' as u32) == 10);
    assert(('\x0c' as u32) == 12);
    assert(('\r' as u32) == 13);
    assert(('"' as u32) == 34);
    assert(s[0] == '"');
    assert(!is_ws_char(s[0]));
    assert(s[0] != '(');
    assert(sp_skip_ws(st0) == st0);
    let st2 = lex_adv(st0);
    let stop: int = s.len() - 1;
    assert(s[stop] == '"');
    assert(forall|j: int| st2.i <= j < stop ==> #[trigger] s[j] != '"');
    lemma_take_str_to(st2, stop);
    let txt = sp_take_str_chars(st2).0;
    let st3 = sp_take_str_chars(st2).1;
    assert(txt =~= t);
    assert(st3.i < st3.s.len());
    assert(lex_pos(st0) == n.pos);
    assert(sp_parse_next(st0) == PNext::Item(n, lex_adv(st3)));
    let st4 = lex_adv(st3);
    assert(st4.i == s.len());
    assert(lex_wf(st4));
    assert(sp_skip_ws(st4) == st4);
    assert(sp_parse_next(st4) == PNext::Done(st4));
    assert(sp_parse_all(st4, seq![n]) == Ok::<Seq<NodeView>, ParseError>(seq![n]));
    assert(Seq::<NodeView>::empty().push(n) =~= seq![n]);
    assert(sp_parse_all(st0, Seq::<NodeView>::empty()) == sp_parse_all(st4, seq![n]));
}


/// A digit run before a known non-digit is consumed up to it.
pub proof fn lemma_take_digits_to(st: LexSt, stop: int)
    requires
        lex_wf(st),
        st.i <= stop < st.s.len(),
        forall|j: int| st.i <= j < stop ==> is_digit_char(#[trigger] st.s[j]),
        !is_digit_char(st.s[stop]),
    ensures
        sp_take_digits(st).0 == st.s.subrange(st.i, stop),
        sp_take_digits(st).1.s == st.s,
        sp_take_digits(st).1.i == stop,
        lex_wf(sp_take_digits(st).1),
    decreases st.s.len() - st.i,
{
    if st.i < stop {
        assert(('\n' as u32) == 10);
        assert(st.s[st.i] != '\n');
        lemma_take_digits_to(lex_adv(st), stop);
        assert(sp_take_digits(st).0 =~= st.s.subrange(st.i, stop));
    } else {
        assert(st.s.subrange(st.i, stop) =~= Seq::<char>::empty());
    }
}

/// The textual round trip of a float node: parsing the rendered text of a
/// float literal at the origin yields exactly that node back, provided the
/// text is a digit run, a dot, then a digit run — the only form the
/// scanner produces.
pub proof fn lemma_float_node_text_round_trip(t: Seq<char>, dot: int)
    requires
        1 <= dot < t.len(),
        forall|j: int| 0 <= j < dot ==> is_digit_char(#[trigger] t[j]),
        t[dot] == '.',
        forall|j: int| dot < j < t.len() ==> is_digit_char(#[trigger] t[j]),
    ensures
        ({
            let n = NodeView { value: SExprView::Float(t), pos: Position { ln: 0, col: 0 } };
            sp_parse(node_text(n)) == Ok::<Seq<NodeView>, ParseError>(seq![n])
        }),
{
    let n = NodeView { value: SExprView::Float(t), pos: Position { ln: 0, col: 0 } };
    let s = node_text(n);
    assert(s == t);
    let st0 = lex_init(s);
    assert((' ' as u32) == 32);
    assert(('\t' as u32) == 9);
    assert(('\n' as u32) == 10);
    assert(('\x0c' as u32) == 12);
    assert(('\r' as u32) == 13);
    assert(('(' as u32) == 40);
    assert(('"' as u32) == 34);
    assert(('.' as u32) == 46);
    assert(is_digit_char(s[0]));
    assert(!is_ws_char(s[0]));
    assert(s[0] != '(' && s[0] != '"');
    assert(sp_skip_ws(st0) == st0);
    let st2 = lex_adv(st0);
    assert(!is_digit_char(s[dot]));
    lemma_take_digits_to(st2, dot);
    let ds = sp_take_digits(st2).0;
    let st3 = sp_take_digits(st2).1;
    assert(st3.i == dot && st3.s[dot] == '.');
    let st4 = lex_adv(st3);
    assert(st4.i == dot + 1);
    assert(lex_wf(st4));
    lemma_take_digits_full(st4);
    let ds2 = sp_take_digits(st4).0;
    let st5 = sp_take_digits(st4).1;
    assert(st5.i == s.len());
    assert(seq![s[0]] + ds + seq!['.'] + ds2 =~= t);
    assert(lex_pos(st0) == n.pos);
    assert(sp_parse_next(st0) == PNext::Item(n, st5));
    assert(sp_skip_ws(st5) == st5);
    assert(sp_parse_next(st5) == PNext::Done(st5));
    assert(sp_parse_all(st5, seq![n]) == Ok::<Seq<NodeView>, ParseError>(seq![n]));
    assert(Seq::<NodeView>::empty().push(n) =~= seq![n]);
    assert(sp_parse_all(st0, Seq::<NodeView>::empty()) == sp_parse_all(st5, seq![n]));
}


// ---------------------------------------------------------------------------
// The textual round trip of whole node trees.
// ---------------------------------------------------------------------------
/// A float literal's textual shape: a digit run, a dot at the given
/// index, then a digit run.
pub open spec fn float_shaped_at(t: Seq<char>, dot: int) -> bool {
    1 <= dot < t.len() && t[dot] == '.' && (forall|j: int|
        0 <= j < t.len() && j != dot ==> is_digit_char(#[trigger] t[j]))
}

/// The index of the first dot in the text, or its length if none occurs.
pub open spec fn first_dot(t: Seq<char>) -> int
    decreases t.len(),
{
    if t.len() == 0 {
        0
    } else if t[0] == '.' {
        0
    } else {
        1 + first_dot(t.drop_first())
    }
}

/// A dot preceded only by digits is the first dot.
pub proof fn lemma_first_dot(t: Seq<char>, k: int)
    requires
        0 <= k < t.len(),
        t[k] == '.',
        forall|j: int| 0 <= j < k ==> is_digit_char(#[trigger] t[j]),
    ensures
        first_dot(t) == k,
    decreases t.len(),
{
    assert(('.' as u32) == 46);
    if k == 0 {
    } else {
        assert(t[0] != '.');
        let r = t.drop_first();
        assert(r[k - 1] == t[k]);
        assert forall|j: int| 0 <= j < k - 1 implies is_digit_char(#[trigger] r[j]) by {
            assert(r[j] == t[j + 1]);
        }
        lemma_first_dot(r, k - 1);
    }
}

/// A node whose textual form reads back as itself: integers are
/// nonnegative, words are nonempty, do not start with a digit and hold no
/// whitespace or reserved symbol, floats are a digit run, a dot and a digit
/// run, strings hold no quote, and a list's children are all renderable.
pub open spec fn renderable(n: NodeView) -> bool
    decreases n,
{
    match n.value {
        SExprView::Expr(es) => renderables(es),
        SExprView::Word(w) => w.len() >= 1 && !is_digit_char(w[0]) && (forall|j: int|
            0 <= j < w.len() ==> !is_ws_char(#[trigger] w[j]) && !is_sym_char(w[j])),
        SExprView::Int(v) => v >= 0,
        SExprView::Float(t) => float_shaped_at(t, first_dot(t)),
        SExprView::Str(s) => forall|j: int| 0 <= j < s.len() ==> #[trigger] s[j] != '"',
    }
}

/// Every node of the sequence is renderable.
pub open spec fn renderables(es: Seq<NodeView>) -> bool
    decreases es,
{
    if es.len() == 0 {
        true
    } else {
        renderables(es.drop_last()) && renderable(es.last())
    }
}

/// `renderables` holds element by element.
pub proof fn lemma_renderables(es: Seq<NodeView>)
    requires
        renderables(es),
    ensures
        forall|i: int| 0 <= i < es.len() ==> renderable(#[trigger] es[i]),
    decreases es,
{
    if es.len() > 0 {
        lemma_renderables(es.drop_last());
        assert forall|i: int| 0 <= i < es.len() implies renderable(#[trigger] es[i]) by {
            if i < es.len() - 1 {
                assert(es.drop_last()[i] == es[i]);
                assert(renderable(es.drop_last()[i]));
            }
        }
    }
}

/// A renderable suffix of a renderable sequence.
pub proof fn lemma_renderables_drop_first(es: Seq<NodeView>)
    requires
        renderables(es),
        es.len() > 0,
    ensures
        renderables(es.drop_first()),
    decreases es,
{
    if es.len() == 1 {
        assert(es.drop_first() =~= Seq::<NodeView>::empty());
    } else {
        lemma_renderables_drop_first(es.drop_last());
        assert(es.drop_first().drop_last() =~= es.drop_last().drop_first());
        assert(es.drop_first().last() == es.last());
    }
}

/// The node with every position forgotten: what the round trip preserves.
pub open spec fn node_shape(n: NodeView) -> NodeView
    decreases n,
{
    NodeView {
        value: match n.value {
            SExprView::Expr(es) => SExprView::Expr(nodes_shape(es)),
            v => v,
        },
        pos: Position { ln: 0, col: 0 },
    }
}

/// The shapes of a sequence of nodes.
pub open spec fn nodes_shape(es: Seq<NodeView>) -> Seq<NodeView>
    decreases es,
{
    if es.len() == 0 {
        Seq::<NodeView>::empty()
    } else {
        nodes_shape(es.drop_last()).push(node_shape(es.last()))
    }
}

/// `nodes_shape` maps the sequence element by element.
pub proof fn lemma_nodes_shape(es: Seq<NodeView>)
    ensures
        nodes_shape(es).len() == es.len(),
        forall|i: int| 0 <= i < es.len() ==> nodes_shape(es)[i] == node_shape(es[i]),
    decreases es,
{
    if es.len() > 0 {
        lemma_nodes_shape(es.drop_last());
    }
}

/// The rendered text of a renderable node is nonempty and opens with a
/// character that is neither whitespace nor a closing parenthesis.
pub proof fn lemma_node_text_head(n: NodeView)
    requires
        renderable(n),
    ensures
        node_text(n).len() >= 1,
        !is_ws_char(node_text(n)[0]),
        node_text(n)[0] != ')',
{
    reveal_strlit("(");
    reveal_strlit(")");
    reveal_strlit("\"");
    assert((' ' as u32) == 32);
    assert(('\t' as u32) == 9);
    assert(('\n' as u32) == 10);
    assert(('\x0c' as u32) == 12);
    assert(('\r' as u32) == 13);
    assert(('(' as u32) == 40);
    assert((')' as u32) == 41);
    assert(('"' as u32) == 34);
    match n.value {
        SExprView::Expr(es) => {
            assert(node_text(n)[0] == '(');
        },
        SExprView::Word(w) => {
            assert(node_text(n)[0] == w[0]);
        },
        SExprView::Int(v) => {
            crate::strutil::lemma_dec_str_digits(v as nat);
            assert(is_digit_char(node_text(n)[0]));
        },
        SExprView::Float(t) => {
            assert(float_shaped_at(t, first_dot(t)));
            assert(is_digit_char(t[0]));
        },
        SExprView::Str(s) => {
            assert(node_text(n)[0] == '"');
        },
    }
}

/// The joined text of children splits off its first child.
pub proof fn lemma_join_first(es: Seq<NodeView>)
    requires
        es.len() >= 1,
    ensures
        es.len() == 1 ==> nodes_join_text(es) == node_text(es[0]),
        es.len() >= 2 ==> nodes_join_text(es) == node_text(es[0]) + " "@ + nodes_join_text(
            es.drop_first(),
        ),
    decreases es,
{
    if es.len() == 1 {
    } else if es.len() == 2 {
        assert(es.drop_last() =~= seq![es[0]]);
        assert(es.drop_first() =~= seq![es[1]]);
        assert(nodes_join_text(es.drop_first()) == node_text(es[1]));
        assert(nodes_join_text(es.drop_last()) == node_text(es[0]));
    } else {
        lemma_join_first(es.drop_last());
        assert(es.drop_last()[0] == es[0]);
        assert(es.drop_first().drop_last() =~= es.drop_last().drop_first());
        assert(es.drop_first().last() == es.last());
        assert(nodes_join_text(es.drop_first()) == nodes_join_text(es.drop_first().drop_last())
            + " "@ + node_text(es.drop_first().last()));
        assert(node_text(es[0]) + " "@ + (nodes_join_text(es.drop_last().drop_first()) + " "@
            + node_text(es.last())) =~= (node_text(es[0]) + " "@ + nodes_join_text(
            es.drop_last().drop_first(),
        )) + " "@ + node_text(es.last()));
    }
}

/// A run of word characters before a known whitespace or symbol is
/// consumed up to it.
pub proof fn lemma_take_word_to(st: LexSt, stop: int)
    requires
        lex_wf(st),
        st.i <= stop < st.s.len(),
        forall|j: int|
            st.i <= j < stop ==> !is_ws_char(#[trigger] st.s[j]) && !is_sym_char(st.s[j]),
        is_ws_char(st.s[stop]) || is_sym_char(st.s[stop]),
    ensures
        sp_take_word(st).0 == st.s.subrange(st.i, stop),
        sp_take_word(st).1.s == st.s,
        sp_take_word(st).1.i == stop,
        lex_wf(sp_take_word(st).1),
    decreases st.s.len() - st.i,
{
    if st.i < stop {
        lemma_take_word_to(lex_adv(st), stop);
        assert(sp_take_word(st).0 =~= st.s.subrange(st.i, stop));
    } else {
        assert(st.s.subrange(st.i, stop) =~= Seq::<char>::empty());
    }
}


/// A boundary after a rendered atom: the end of the text, whitespace, or a
/// closing parenthesis — anything that stops a greedy atom scan.
pub open spec fn text_boundary(s: Seq<char>, e: int) -> bool {
    e == s.len() || is_ws_char(s[e]) || s[e] == ')'
}

/// Scanning at the start of a renderable node's rendered text, with a
/// boundary after it, yields one node of the same shape and stops exactly
/// at the boundary.
pub proof fn lemma_parse_next_rendered(st: LexSt, n: NodeView)
    requires
        lex_wf(st),
        renderable(n),
        st.i + node_text(n).len() <= st.s.len(),
        st.s.subrange(st.i, st.i + node_text(n).len()) == node_text(n),
        text_boundary(st.s, st.i + node_text(n).len()),
    ensures
        ({
            let e = st.i + node_text(n).len();
            &&& sp_parse_next(st) matches PNext::Item(m, st2) && node_shape(m) == node_shape(n)
                && st2.s == st.s && st2.i == e && lex_wf(st2)
        }),
    decreases node_size(n), 0int,
{
    reveal_strlit("(");
    reveal_strlit(")");
    reveal_strlit("\"");
    assert((' ' as u32) == 32);
    assert(('\t' as u32) == 9);
    assert(('\n' as u32) == 10);
    assert(('\x0c' as u32) == 12);
    assert(('\r' as u32) == 13);
    assert(('(' as u32) == 40);
    assert((')' as u32) == 41);
    assert(('"' as u32) == 34);
    assert(('.' as u32) == 46);
    let s = st.s;
    let t = node_text(n);
    let e = st.i + t.len();
    lemma_node_text_head(n);
    assert forall|k: int| 0 <= k < t.len() implies s[st.i + k] == t[k] by {
        assert(s.subrange(st.i, e)[k] == s[st.i + k]);
    }
    let c = s[st.i];
    assert(c == t[0]);
    assert(sp_skip_ws(st) == st);
    let st2 = lex_adv(st);
    match n.value {
        SExprView::Expr(es) => {
            assert(c == '(');
            assert(t == "("@ + nodes_join_text(es) + ")"@);
            assert(t.len() == nodes_join_text(es).len() + 2);
            let jlen = nodes_join_text(es).len() as int;
            assert forall|k: int| 0 <= k < jlen + 1 implies s.subrange(st2.i, st2.i + jlen + 1)[k]
                == (nodes_join_text(es) + ")"@)[k] by {
                assert(s.subrange(st2.i, st2.i + jlen + 1)[k] == s[st2.i + k]);
                assert(s.subrange(st.i, e)[k + 1] == s[st.i + k + 1]);
                assert(t[k + 1] == (nodes_join_text(es) + ")"@)[k]);
            }
            assert(s.subrange(st2.i, st2.i + jlen + 1) =~= nodes_join_text(es) + ")"@);
            lemma_list_rendered(st2, lex_pos(st), Seq::<NodeView>::empty(), es);
            let r = sp_list_items(st2, lex_pos(st), Seq::<NodeView>::empty());
            assert(sp_parse_next(st) == r);
            match r {
                PNext::Item(m, stx) => {
                    assert(nodes_shape(Seq::<NodeView>::empty()) + nodes_shape(es)
                        =~= nodes_shape(es));
                    assert(node_shape(m) == node_shape(n));
                    assert(stx.i == e);
                },
                _ => {
                    assert(false);
                },
            }
        },
        SExprView::Word(w) => {
            assert(t == w);
            assert(!is_digit_char(c));
            assert(!is_sym_char(c));
            assert forall|j: int| st2.i <= j < e implies !is_ws_char(#[trigger] s[j])
                && !is_sym_char(s[j]) by {
                assert(s.subrange(st.i, e)[j - st.i] == s[j]);
                assert(t[j - st.i] == w[j - st.i]);
            }
            if e == s.len() {
                lemma_take_word_full(st2);
            } else {
                lemma_take_word_to(st2, e);
            }
            let rest = sp_take_word(st2).0;
            let st3 = sp_take_word(st2).1;
            assert(st3.i == e);
            assert(seq![c] + rest =~= w);
            assert(sp_parse_next(st) == PNext::Item(
                NodeView { value: SExprView::Word(w), pos: lex_pos(st) },
                st3,
            ));
        },
        SExprView::Int(v) => {
            crate::strutil::lemma_dec_str_digits(v as nat);
            crate::strutil::lemma_dec_str_value(v as nat);
            assert(t == crate::strutil::dec_str(v as nat));
            assert(is_digit_char(c));
            assert forall|j: int| st2.i <= j < e implies is_digit_char(#[trigger] s[j]) by {
                assert(s.subrange(st.i, e)[j - st.i] == s[j]);
                assert(48 <= (crate::strutil::dec_str(v as nat)[j - st.i] as u32) <= 57);
            }
            if e == s.len() {
                lemma_take_digits_full(st2);
            } else {
                assert(!is_digit_char(s[e]));
                lemma_take_digits_to(st2, e);
            }
            let ds = sp_take_digits(st2).0;
            let st3 = sp_take_digits(st2).1;
            assert(st3.i == e);
            assert(seq![c] + ds =~= t);
            assert(st3.i < s.len() ==> s[st3.i] != '.');
            assert(digits_val(seq![c] + ds) == v as nat);
            assert(!(digits_val(seq![c] + ds) > i32::MAX as nat));
            assert(sp_parse_next(st) == PNext::Item(
                NodeView { value: SExprView::Int(v), pos: lex_pos(st) },
                st3,
            ));
        },
        SExprView::Float(ft) => {
            let dot = first_dot(ft);
            assert(float_shaped_at(ft, dot));
            assert(t == ft);
            assert(is_digit_char(c));
            assert forall|j: int| st.i <= j < e && j != st.i + dot implies is_digit_char(
                #[trigger] s[j],
            ) by {
                assert(s.subrange(st.i, e)[j - st.i] == s[j]);
                assert(is_digit_char(ft[j - st.i]));
            }
            assert(s.subrange(st.i, e)[dot] == s[st.i + dot]);
            assert(!is_digit_char(s[st.i + dot]));
            lemma_take_digits_to(st2, st.i + dot);
            let ds = sp_take_digits(st2).0;
            let st3 = sp_take_digits(st2).1;
            assert(st3.i == st.i + dot && s[st3.i] == '.');
            let st4 = lex_adv(st3);
            assert(st4.i == st.i + dot + 1);
            assert(lex_wf(st4));
            if e == s.len() {
                lemma_take_digits_full(st4);
            } else {
                assert(!is_digit_char(s[e]));
                lemma_take_digits_to(st4, e);
            }
            let ds2 = sp_take_digits(st4).0;
            let st5 = sp_take_digits(st4).1;
            assert(st5.i == e);
            assert(seq![c] + ds + seq!['.'] + ds2 =~= ft);
            assert(sp_parse_next(st) == PNext::Item(
                NodeView { value: SExprView::Float(ft), pos: lex_pos(st) },
                st5,
            ));
        },
        SExprView::Str(sq) => {
            assert(c == '"');
            assert(t =~= seq!['"'] + sq + seq!['"']);
            let stop: int = e - 1;
            assert(s.subrange(st.i, e)[stop - st.i] == s[stop]);
            assert(t[stop - st.i] == '"');
            assert(s[stop] == '"');
            assert forall|j: int| st2.i <= j < stop implies #[trigger] s[j] != '"' by {
                assert(s.subrange(st.i, e)[j - st.i] == s[j]);
                assert(t[j - st.i] == sq[j - st.i - 1]);
            }
            lemma_take_str_to(st2, stop);
            let txt = sp_take_str_chars(st2).0;
            let st3 = sp_take_str_chars(st2).1;
            assert forall|k: int| 0 <= k < sq.len() implies txt[k] == sq[k] by {
                assert(txt[k] == s.subrange(st2.i, stop)[k]);
                assert(s.subrange(st2.i, stop)[k] == s[st2.i + k]);
                assert(s.subrange(st.i, e)[k + 1] == s[st.i + k + 1]);
                assert(t[k + 1] == sq[k]);
            }
            assert(txt =~= sq);
            assert(st3.i < s.len());
            let st4 = lex_adv(st3);
            assert(st4.i == e);
            assert(lex_wf(st4));
            assert(sp_parse_next(st) == PNext::Item(
                NodeView { value: SExprView::Str(sq), pos: lex_pos(st) },
                st4,
            ));
        },
    }
}

/// Scanning list children at the start of their joined rendered text,
/// with the closing parenthesis after it, collects nodes of the same
/// shapes and stops just past the parenthesis.
pub proof fn lemma_list_rendered(st: LexSt, opos: Position, acc: Seq<NodeView>, es: Seq<NodeView>)
    requires
        lex_wf(st),
        renderables(es),
        st.i + nodes_join_text(es).len() + 1 <= st.s.len(),
        st.s.subrange(st.i, st.i + nodes_join_text(es).len() + 1) == nodes_join_text(es) + ")"@,
    ensures
        ({
            let e = st.i + nodes_join_text(es).len() + 1;
            &&& sp_list_items(st, opos, acc) matches PNext::Item(m, st2) && m.pos == opos && (
            m.value matches SExprView::Expr(ms) && nodes_shape(ms) == nodes_shape(acc)
                + nodes_shape(es)) && st2.s == st.s && st2.i == e && lex_wf(st2)
        }),
    decreases nodes_size(es), 1int,
{
    reveal_strlit(")");
    reveal_strlit(" ");
    assert((' ' as u32) == 32);
    assert((')' as u32) == 41);
    assert(('\n' as u32) == 10);
    let s = st.s;
    let jt = nodes_join_text(es) + ")"@;
    let e = st.i + nodes_join_text(es).len() + 1;
    assert forall|k: int| 0 <= k < jt.len() implies s[st.i + k] == jt[k] by {
        assert(s.subrange(st.i, e)[k] == s[st.i + k]);
    }
    if es.len() == 0 {
        assert(nodes_join_text(es) == Seq::<char>::empty());
        assert(jt =~= ")"@);
        assert(s.subrange(st.i, e)[0] == s[st.i]);
        assert(jt[0] == ')');
        assert(s[st.i] == ')');
        let st2 = lex_adv(st);
        assert(st2.i == e);
        assert(sp_list_items(st, opos, acc) == PNext::Item(
            NodeView { value: SExprView::Expr(acc), pos: opos },
            st2,
        ));
        assert(nodes_shape(acc) + nodes_shape(Seq::<NodeView>::empty()) =~= nodes_shape(acc));
    } else {
        lemma_renderables(es);
        lemma_renderables_drop_first(es);
        lemma_join_first(es);
        crate::compiler::lemma_nodes_size_first(es);
        lemma_nodes_size_elem(es, 0);
        let x = es[0];
        let xt = node_text(x);
        lemma_node_text_head(x);
        let b = st.i + xt.len();
        assert forall|k: int| 0 <= k < xt.len() implies jt[k] == xt[k] by {
            if es.len() == 1 {
            } else {
                assert(nodes_join_text(es)[k] == (node_text(es[0]) + " "@ + nodes_join_text(
                    es.drop_first(),
                ))[k]);
            }
        }
        assert forall|k: int| 0 <= k < xt.len() implies s.subrange(st.i, b)[k] == xt[k] by {
            assert(s.subrange(st.i, b)[k] == s[st.i + k]);
            assert(s.subrange(st.i, e)[k] == s[st.i + k]);
        }
        assert(s.subrange(st.i, b) =~= xt);
        assert(s.subrange(st.i, e)[0] == s[st.i]);
        assert(s[st.i] == xt[0]);
        assert(s[st.i] != ')');
        assert(st.i < s.len());
        if es.len() == 1 {
            assert(nodes_join_text(es) == xt);
            assert(jt[xt.len() as int] == ')');
            assert(s.subrange(st.i, e)[xt.len() as int] == s[b]);
            assert(s[b] == ')');
            assert(text_boundary(s, b));
            lemma_parse_next_rendered(st, x);
            let r = sp_parse_next(st);
            match r {
                PNext::Item(m0, sta) => {
                    assert(sta.i == b);
                    assert(sp_skip_ws(sta) == sta);
                    let rest = es.drop_first();
                    assert(rest =~= Seq::<NodeView>::empty());
                    assert(s.subrange(sta.i, sta.i + 1)[0] == s[b]);
                    assert((nodes_join_text(rest) + ")"@)[0] == ')');
                    assert(s.subrange(sta.i, sta.i + 1) =~= nodes_join_text(rest) + ")"@);
                    lemma_list_rendered(sta, opos, acc.push(m0), rest);
                    let r2 = sp_list_items(sta, opos, acc.push(m0));
                    assert(sp_list_items(st, opos, acc) == r2);
                    match r2 {
                        PNext::Item(m, st2) => {
                            lemma_nodes_shape(acc);
                            lemma_nodes_shape(acc.push(m0));
                            lemma_nodes_shape(es);
                            assert(acc.push(m0).drop_last() =~= acc);
                            assert(nodes_shape(acc.push(m0)) == nodes_shape(acc).push(
                                node_shape(m0),
                            ));
                            match m.value {
                                SExprView::Expr(ms) => {
                                    assert(nodes_shape(ms) =~= nodes_shape(acc) + nodes_shape(
                                        es,
                                    ));
                                },
                                _ => {
                                    assert(false);
                                },
                            }
                            assert(st2.i == e);
                        },
                        _ => {
                            assert(false);
                        },
                    }
                },
                _ => {
                    assert(false);
                },
            }
        } else {
            let rest0 = es.drop_first();
            assert(nodes_join_text(es) == xt + " "@ + nodes_join_text(rest0));
            assert(((xt + " "@) + nodes_join_text(rest0))[xt.len() as int] == ' ');
            assert(jt[xt.len() as int] == ' ');
            assert(s.subrange(st.i, e)[xt.len() as int] == s[b]);
            assert(s[b] == ' ');
            assert(is_ws_char(s[b]));
            assert(text_boundary(s, b));
            lemma_parse_next_rendered(st, x);
            let r = sp_parse_next(st);
            match r {
                PNext::Item(m0, sta) => {
                    assert(sta.i == b);
                    let rest = es.drop_first();
                    lemma_join_first(rest);
                    assert(rest[0] == es[1]);
                    lemma_node_text_head(rest[0]);
                    assert(((xt + " "@) + nodes_join_text(rest))[xt.len() as int + 1]
                        == nodes_join_text(rest)[0]);
                    assert(jt[b - st.i + 1] == nodes_join_text(rest)[0]);
                    assert(nodes_join_text(rest)[0] == node_text(rest[0])[0]);
                    assert(s.subrange(st.i, e)[b - st.i + 1] == s[b + 1]);
                    assert(s[b + 1] == node_text(rest[0])[0]);
                    assert(!is_ws_char(s[b + 1]));
                    assert(b + 1 < s.len());
                    let stb = lex_adv(sta);
                    assert(s[b] != '\n');
                    assert(stb.i == b + 1);
                    assert(sp_skip_ws(stb) == stb);
                    assert(sp_skip_ws(sta) == sp_skip_ws(stb));
                    let rlen = nodes_join_text(rest).len() as int;
                    assert forall|k: int| 0 <= k < rlen + 1 implies s.subrange(
                        stb.i,
                        stb.i + rlen + 1,
                    )[k] == (nodes_join_text(rest) + ")"@)[k] by {
                        assert(s.subrange(stb.i, stb.i + rlen + 1)[k] == s[stb.i + k]);
                        assert(s.subrange(st.i, e)[stb.i - st.i + k] == s[stb.i + k]);
                        assert(jt[stb.i - st.i + k] == (nodes_join_text(rest) + ")"@)[k]);
                    }
                    assert(s.subrange(stb.i, stb.i + rlen + 1) =~= nodes_join_text(rest)
                        + ")"@);
                    lemma_list_rendered(stb, opos, acc.push(m0), rest);
                    let r2 = sp_list_items(stb, opos, acc.push(m0));
                    assert(sp_list_items(st, opos, acc) == r2);
                    match r2 {
                        PNext::Item(m, st2) => {
                            lemma_nodes_shape(acc);
                            lemma_nodes_shape(acc.push(m0));
                            lemma_nodes_shape(es);
                            lemma_nodes_shape(rest);
                            assert(acc.push(m0).drop_last() =~= acc);
                            assert(nodes_shape(acc.push(m0)) == nodes_shape(acc).push(
                                node_shape(m0),
                            ));
                            match m.value {
                                SExprView::Expr(ms) => {
                                    assert(nodes_shape(ms) =~= nodes_shape(acc) + nodes_shape(
                                        es,
                                    ));
                                },
                                _ => {
                                    assert(false);
                                },
                            }
                            assert(st2.i == e);
                        },
                        _ => {
                            assert(false);
                        },
                    }
                },
                _ => {
                    assert(false);
                },
            }
        }
    }
}

/// The textual round trip of a node: parsing the rendered text of any
/// renderable node yields exactly one node of the same shape. The scan
/// lays positions out afresh, so the comparison forgets them.
pub proof fn lemma_node_text_round_trip(n: NodeView)
    requires
        renderable(n),
    ensures
        ({
            let r = sp_parse(node_text(n));
            &&& r matches Ok(ns) && ns.len() == 1 && node_shape(ns[0]) == node_shape(n)
        }),
{
    let s = node_text(n);
    let st0 = lex_init(s);
    lemma_node_text_head(n);
    assert(s.subrange(0, s.len() as int) =~= s);
    assert(text_boundary(s, s.len() as int));
    lemma_parse_next_rendered(st0, n);
    let r = sp_parse_next(st0);
    match r {
        PNext::Item(m, st2) => {
            assert(st2.i == s.len());
            assert(sp_skip_ws(st2) == st2);
            assert(sp_parse_next(st2) == PNext::Done(st2));
            assert(sp_parse_all(st2, seq![m]) == Ok::<Seq<NodeView>, ParseError>(seq![m]));
            assert(Seq::<NodeView>::empty().push(m) =~= seq![m]);
            assert(sp_parse_all(st0, Seq::<NodeView>::empty()) == sp_parse_all(st2, seq![m]));
        },
        _ => {
            assert(false);
        },
    }
}


/// Scanning a whole text yields only renderable nodes.
pub proof fn lemma_parse_all_renderable(st: LexSt, acc: Seq<NodeView>)
    requires
        lex_wf(st),
        renderables(acc),
    ensures
        sp_parse_all(st, acc) matches Ok(ns) ==> renderables(ns),
    decreases st.s.len() - st.i, 3int,
{
    lemma_parse_next_state(st);
    match sp_parse_next(st) {
        PNext::Fail(e) => {},
        PNext::Done(st2) => {},
        PNext::Item(n, st2) => {
            if st2.s == st.s && st.i < st2.i <= st.s.len() {
                assert(acc.push(n).drop_last() =~= acc);
                assert(renderables(acc.push(n)));
                lemma_parse_all_renderable(st2, acc.push(n));
            }
        },
    }
}

/// The textual round trip of parsed source text: every node that a
/// successful parse yields renders back to text that parses as exactly one
/// node of the same shape. The re-scan lays positions out afresh, so the
/// comparison forgets them.
pub proof fn lemma_parse_render_round_trip(s: Seq<char>, i: int)
    requires
        sp_parse(s) matches Ok(ns) && 0 <= i < ns.len(),
    ensures
        sp_parse(s) matches Ok(ns) ==> ({
            let r = sp_parse(node_text(ns[i]));
            &&& r matches Ok(ms) && ms.len() == 1 && node_shape(ms[0]) == node_shape(ns[i])
        }),
{
    assert(renderables(Seq::<NodeView>::empty()));
    lemma_parse_all_renderable(lex_init(s), Seq::<NodeView>::empty());
    match sp_parse(s) {
        Ok(ns) => {
            lemma_renderables(ns);
            lemma_node_text_round_trip(ns[i]);
        },
        Err(_) => {},
    }
}

} // verus!
