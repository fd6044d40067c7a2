use crate::code::{
    function_view, instr_view, program_view, spec_register_size, spec_size_bytes, Destination,
    Function, FunctionView, InstrView, Instruction, Program, ProgramView, Register, RegisterName,
    RegisterSize, Source, SrcView,
};
use crate::parser::{
    node_size, node_view, nodes_size, nodes_view, lemma_nodes_size_elem, lemma_nodes_view, Located,
    NodeView, Position, SExpr, SExprView,
};
use crate::strutil::{dec_str, push_dec_usize, str_eq};
use crate::typ::{FloatType, IntType, Type};
use vstd::prelude::*;
use vstd::string::StringExecFns;

verus! {

broadcast use vstd::seq::group_seq_axioms, vstd::std_specs::vec::group_vec_axioms;

/// The code generator's state: the program being assembled and the stack of
/// frames for the functions under construction.
#[derive(Debug)]
pub struct Compiler {
    pub program: Program,
    pub frames: Vec<Frame>,
}

/// The bookkeeping for one function under construction.
#[derive(Debug, Clone, PartialEq)]
pub struct Frame {
    pub function: Function,
    pub scopes: Vec<Scope>,
    pub registers: usize,
}

/// One lexical scope: named local byte offsets. No construct populates a
/// local yet; the scope stack is bookkeeping for future forms.
#[derive(Debug, Clone, PartialEq)]
pub struct Scope {
    pub locals: Vec<(String, u8)>,
    pub offset: u8,
}

/// The closed set of compile failures.
#[derive(Debug, Clone, PartialEq)]
pub enum CompileError {
    NotFound(String),
    ExpectedArgs(usize),
    InvalidHead,
    InvalidType(Type),
    InvalidTypeExpected { expected: Type, got: Type },
    UnknownSize,
}

impl Default for Scope {
    fn default() -> (r: Self)
        ensures
            r.locals@ =~= Seq::<(String, u8)>::empty(),
            r.offset == 0,
    {
        Scope { locals: Vec::new(), offset: 0 }
    }
}

impl Default for Compiler {
    fn default() -> (r: Self)
        ensures
            r.frames@ =~= Seq::<Frame>::empty(),
            r.program.functions@ =~= Seq::<Function>::empty(),
            r.program.externs@ =~= Seq::<String>::empty(),
    {
        Compiler { program: Program::default(), frames: Vec::new() }
    }
}

/// A compile failure with its texts taken as plain text.
pub ghost enum CErrView {
    NotFound(Seq<char>),
    ExpectedArgs(usize),
    InvalidHead,
    InvalidType(Type),
    InvalidTypeExpected { expected: Type, got: Type },
    UnknownSize,
}

/// The abstract value of a compile failure.
pub open spec fn cerr_view(e: CompileError) -> CErrView {
    match e {
        CompileError::NotFound(w) => CErrView::NotFound(w@),
        CompileError::ExpectedArgs(n) => CErrView::ExpectedArgs(n),
        CompileError::InvalidHead => CErrView::InvalidHead,
        CompileError::InvalidType(t) => CErrView::InvalidType(t),
        CompileError::InvalidTypeExpected { expected, got } => CErrView::InvalidTypeExpected {
            expected,
            got,
        },
        CompileError::UnknownSize => CErrView::UnknownSize,
    }
}

/// A positioned compile failure.
pub ghost struct LocErr {
    pub value: CErrView,
    pub pos: Position,
}

/// The abstract value of a positioned compile failure.
pub open spec fn loc_err_view(e: Located<CompileError>) -> LocErr {
    LocErr { value: cerr_view(e.value), pos: e.pos }
}

/// What compiling one node emits: instructions and string constants into the
/// top frame, extern names into the program, and the node's result.
pub ghost struct Emit {
    pub instrs: Seq<InstrView>,
    pub strs: Seq<Seq<char>>,
    pub exts: Seq<Seq<char>>,
    pub res: Result<Type, LocErr>,
}

/// What laying down a call's arguments emits, with the byte total to clean
/// off the stack afterwards.
pub ghost struct CallOut {
    pub instrs: Seq<InstrView>,
    pub strs: Seq<Seq<char>>,
    pub exts: Seq<Seq<char>>,
    pub args: int,
    pub err: Option<LocErr>,
}

/// The symbolic name of a pooled string constant: the function name, `_c`,
/// and the zero-based pool index.
pub open spec fn const_name(fname: Seq<char>, idx: nat) -> Seq<char> {
    fname + "_c"@ + dec_str(idx)
}

/// The byte length of a string literal's text.
pub open spec fn sbytes(s: Seq<char>) -> nat {
    (vstd::utf8::encode_utf8(s).len() as usize) as nat
}

/// An upper bound on any byte total the compiler accumulates under a node.
pub open spec fn node_budget(n: NodeView) -> nat
    decreases n,
{
    match n.value {
        SExprView::Expr(es) => 9 + nodes_budget(es),
        SExprView::Str(s) => 9 + sbytes(s),
        _ => 9,
    }
}

/// The summed budget of a sequence of nodes.
pub open spec fn nodes_budget(es: Seq<NodeView>) -> nat
    decreases es,
{
    if es.len() == 0 {
        0
    } else {
        nodes_budget(es.drop_last()) + node_budget(es.last())
    }
}

/// Every element's budget is bounded by the sequence's summed budget.
pub proof fn lemma_nodes_budget_elem(es: Seq<NodeView>, i: int)
    requires
        0 <= i < es.len(),
    ensures
        node_budget(es[i]) <= nodes_budget(es),
    decreases es.len(),
{
    if i == es.len() - 1 {
    } else {
        lemma_nodes_budget_elem(es.drop_last(), i);
    }
}

/// The summed budget splits off its first element.
pub proof fn lemma_nodes_budget_first(es: Seq<NodeView>)
    requires
        es.len() > 0,
    ensures
        nodes_budget(es) == node_budget(es[0]) + nodes_budget(es.drop_first()),
    decreases es.len(),
{
    if es.len() == 1 {
        assert(es.drop_first() =~= Seq::<NodeView>::empty());
        assert(es.drop_last() =~= Seq::<NodeView>::empty());
        assert(nodes_budget(Seq::<NodeView>::empty()) == 0);
        assert(es.last() == es[0]);
    } else {
        lemma_nodes_budget_first(es.drop_last());
        assert(es.drop_last()[0] == es[0]);
        assert(es.drop_first().drop_last() =~= es.drop_last().drop_first());
        assert(es.drop_first().last() == es.last());
        assert(nodes_budget(es.drop_first()) == nodes_budget(es.drop_first().drop_last())
            + node_budget(es.drop_first().last()));
    }
}

/// The summed size splits off its first element.
pub proof fn lemma_nodes_size_first(es: Seq<NodeView>)
    requires
        es.len() > 0,
    ensures
        nodes_size(es) == node_size(es[0]) + nodes_size(es.drop_first()),
    decreases es.len(),
{
    if es.len() == 1 {
        assert(es.drop_first() =~= Seq::<NodeView>::empty());
        assert(es.drop_last() =~= Seq::<NodeView>::empty());
        assert(nodes_size(Seq::<NodeView>::empty()) == 0);
        assert(es.last() == es[0]);
    } else {
        lemma_nodes_size_first(es.drop_last());
        assert(es.drop_last()[0] == es[0]);
        assert(es.drop_first().drop_last() =~= es.drop_last().drop_first());
        assert(es.drop_first().last() == es.last());
        assert(nodes_size(es.drop_first()) == nodes_size(es.drop_first().drop_last())
            + node_size(es.drop_first().last()));
    }
}

/// What a compiled node's type says of the byte totals it can contribute:
/// any array it yields holds unsigned bytes and its count stays under the
/// node's budget.
pub open spec fn type_fits(t: Type, b: nat) -> bool {
    match t {
        Type::Array { typ, size } => *typ == Type::UInt(IntType::S8) && (match size {
            Option::Some(s) => s <= b,
            Option::None => true,
        }),
        _ => true,
    }
}

/// The two prologue instructions of a fresh frame: save the old frame base,
/// then make the stack pointer the new frame base, both at 32 bits.
pub open spec fn prologue() -> Seq<InstrView> {
    seq![
        InstrView::Push {
            src: SrcView::Register(Register { name: RegisterName::BP, size: RegisterSize::S32 }),
        },
        InstrView::Mov {
            dest: Destination::Register(Register { name: RegisterName::BP, size: RegisterSize::S32 }),
            src: SrcView::Register(Register { name: RegisterName::SP, size: RegisterSize::S32 }),
        },
    ]
}

/// The epilogue of a popped frame: give reserved bytes back to the stack
/// pointer when any were taken, then `leave` and `ret`.
pub open spec fn epilogue(registers: usize) -> Seq<InstrView> {
    if registers > 0 {
        seq![
            InstrView::Add {
                dest: Destination::Register(
                    Register { name: RegisterName::SP, size: RegisterSize::S32 },
                ),
                src: SrcView::Amount(registers),
            },
            InstrView::Leave,
            InstrView::Ret,
        ]
    } else {
        seq![InstrView::Leave, InstrView::Ret]
    }
}

/// Compiles one node, given the enclosing function's name and the current
/// size of its string pool.
pub open spec fn sp_compile(fname: Seq<char>, pool: nat, n: NodeView) -> Emit
    decreases node_size(n), 0int,
    via sp_compile_dec
{
    match n.value {
        SExprView::Expr(es) => {
            if es.len() == 0 {
                Emit {
                    instrs: Seq::<InstrView>::empty(),
                    strs: Seq::<Seq<char>>::empty(),
                    exts: Seq::<Seq<char>>::empty(),
                    res: Ok(Type::NoneType),
                }
            } else {
                let head = es[0];
                let rest = es.drop_first();
                match head.value {
                    SExprView::Word(w) => {
                        if w == "+"@ {
                            sp_add(fname, pool, n.pos, rest)
                        } else if w == "extern"@ {
                            sp_ext_items(fname, pool, rest)
                        } else {
                            let co = sp_call_args(fname, pool, rest);
                            match co.err {
                                Some(e) => Emit {
                                    instrs: co.instrs,
                                    strs: co.strs,
                                    exts: co.exts,
                                    res: Err(e),
                                },
                                Option::None => Emit {
                                    instrs: co.instrs + seq![
                                        InstrView::Call { func: w },
                                        InstrView::Add {
                                            dest: Destination::Register(
                                                Register {
                                                    name: RegisterName::SP,
                                                    size: RegisterSize::S32,
                                                },
                                            ),
                                            src: SrcView::Amount(co.args as usize),
                                        },
                                    ],
                                    strs: co.strs,
                                    exts: co.exts,
                                    res: Ok(Type::NoneType),
                                },
                            }
                        }
                    },
                    _ => Emit {
                        instrs: Seq::<InstrView>::empty(),
                        strs: Seq::<Seq<char>>::empty(),
                        exts: Seq::<Seq<char>>::empty(),
                        res: Err(LocErr { value: CErrView::InvalidHead, pos: head.pos }),
                    },
                }
            }
        },
        SExprView::Word(w) => Emit {
            instrs: Seq::<InstrView>::empty(),
            strs: Seq::<Seq<char>>::empty(),
            exts: Seq::<Seq<char>>::empty(),
            res: Err(LocErr { value: CErrView::NotFound(w), pos: n.pos }),
        },
        SExprView::Int(v) => Emit {
            instrs: seq![
                InstrView::Mov {
                    dest: Destination::Register(
                        Register { name: RegisterName::A, size: RegisterSize::S32 },
                    ),
                    src: SrcView::Int(v),
                },
            ],
            strs: Seq::<Seq<char>>::empty(),
            exts: Seq::<Seq<char>>::empty(),
            res: Ok(Type::Int(IntType::S32)),
        },
        SExprView::Float(t) => Emit {
            instrs: Seq::<InstrView>::empty(),
            strs: Seq::<Seq<char>>::empty(),
            exts: Seq::<Seq<char>>::empty(),
            res: Err(
                LocErr { value: CErrView::InvalidType(Type::Float(FloatType::S32)), pos: n.pos },
            ),
        },
        SExprView::Str(s) => Emit {
            instrs: seq![InstrView::Push { src: SrcView::Name(const_name(fname, pool)) }],
            strs: seq![s],
            exts: Seq::<Seq<char>>::empty(),
            res: Ok(
                Type::Array {
                    typ: Box::new(Type::UInt(IntType::S8)),
                    size: Some(((sbytes(s) + 1) as usize)),
                },
            ),
        },
    }
}

/// Compiles the two-operand addition form: left operand, spill, right
/// operand, combine through the scratch register.
pub open spec fn sp_add(fname: Seq<char>, pool: nat, list_pos: Position, rest: Seq<NodeView>) -> Emit
    decreases nodes_size(rest), 1int,
    via sp_add_dec
{
    if rest.len() != 2 {
        Emit {
            instrs: Seq::<InstrView>::empty(),
            strs: Seq::<Seq<char>>::empty(),
            exts: Seq::<Seq<char>>::empty(),
            res: Err(LocErr { value: CErrView::ExpectedArgs(2), pos: list_pos }),
        }
    } else {
        let left = rest[0];
        let right = rest[1];
        let sub1 = sp_compile(fname, pool, left);
        match sub1.res {
            Err(e) => sub1,
            Ok(lt) => {
                match spec_register_size(lt) {
                    Option::None => Emit {
                        instrs: sub1.instrs,
                        strs: sub1.strs,
                        exts: sub1.exts,
                        res: Err(LocErr { value: CErrView::InvalidType(lt), pos: left.pos }),
                    },
                    Some(size) => {
                        let spill = sub1.instrs.push(
                            InstrView::Push {
                                src: SrcView::Register(Register { name: RegisterName::A, size }),
                            },
                        );
                        let sub2 = sp_compile(fname, pool + sub1.strs.len(), right);
                        let instrs2 = spill + sub2.instrs;
                        let strs2 = sub1.strs + sub2.strs;
                        let exts2 = sub1.exts + sub2.exts;
                        match sub2.res {
                            Err(e) => Emit { instrs: instrs2, strs: strs2, exts: exts2, res: Err(e) },
                            Ok(rt) => {
                                if rt != lt {
                                    Emit {
                                        instrs: instrs2,
                                        strs: strs2,
                                        exts: exts2,
                                        res: Err(
                                            LocErr {
                                                value: CErrView::InvalidTypeExpected {
                                                    expected: lt,
                                                    got: rt,
                                                },
                                                pos: right.pos,
                                            },
                                        ),
                                    }
                                } else {
                                    Emit {
                                        instrs: instrs2 + seq![
                                            InstrView::Mov {
                                                dest: Destination::Register(
                                                    Register { name: RegisterName::B, size },
                                                ),
                                                src: SrcView::Register(
                                                    Register { name: RegisterName::A, size },
                                                ),
                                            },
                                            InstrView::Pop {
                                                dest: Destination::Register(
                                                    Register { name: RegisterName::A, size },
                                                ),
                                            },
                                            InstrView::Add {
                                                dest: Destination::Register(
                                                    Register { name: RegisterName::A, size },
                                                ),
                                                src: SrcView::Register(
                                                    Register { name: RegisterName::B, size },
                                                ),
                                            },
                                        ],
                                        strs: strs2,
                                        exts: exts2,
                                        res: Ok(lt),
                                    }
                                }
                            },
                        }
                    },
                }
            },
        }
    }
}

/// Registers extern names right to left; a child that is neither a word nor
/// a string is compiled only to surface its error or its type.
pub open spec fn sp_ext_items(fname: Seq<char>, pool: nat, items: Seq<NodeView>) -> Emit
    decreases nodes_size(items), 1int,
    via sp_ext_items_dec
{
    if items.len() == 0 {
        Emit {
            instrs: Seq::<InstrView>::empty(),
            strs: Seq::<Seq<char>>::empty(),
            exts: Seq::<Seq<char>>::empty(),
            res: Ok(Type::NoneType),
        }
    } else {
        let x = items.last();
        match x.value {
            SExprView::Word(nm) => {
                let rec = sp_ext_items(fname, pool, items.drop_last());
                Emit { instrs: rec.instrs, strs: rec.strs, exts: seq![nm] + rec.exts, res: rec.res }
            },
            SExprView::Str(nm) => {
                let rec = sp_ext_items(fname, pool, items.drop_last());
                Emit { instrs: rec.instrs, strs: rec.strs, exts: seq![nm] + rec.exts, res: rec.res }
            },
            _ => {
                let sub = sp_compile(fname, pool, x);
                match sub.res {
                    Err(e) => Emit {
                        instrs: sub.instrs,
                        strs: sub.strs,
                        exts: sub.exts,
                        res: Err(e),
                    },
                    Ok(t) => Emit {
                        instrs: sub.instrs,
                        strs: sub.strs,
                        exts: sub.exts,
                        res: Err(LocErr { value: CErrView::InvalidType(t), pos: x.pos }),
                    },
                }
            },
        }
    }
}

/// Lays down a call's arguments right to left: an array of known count is
/// already on the stack and adds its byte total; a scalar is pushed from the
/// accumulator at its width.
pub open spec fn sp_call_args(fname: Seq<char>, pool: nat, items: Seq<NodeView>) -> CallOut
    decreases nodes_size(items), 1int,
    via sp_call_args_dec
{
    if items.len() == 0 {
        CallOut {
            instrs: Seq::<InstrView>::empty(),
            strs: Seq::<Seq<char>>::empty(),
            exts: Seq::<Seq<char>>::empty(),
            args: 0,
            err: Option::None,
        }
    } else {
        let x = items.last();
        let sub = sp_compile(fname, pool, x);
        match sub.res {
            Err(e) => CallOut {
                instrs: sub.instrs,
                strs: sub.strs,
                exts: sub.exts,
                args: 0,
                err: Some(e),
            },
            Ok(t) => match t {
                Type::Array { typ, size } => match size {
                    Option::None => CallOut {
                        instrs: sub.instrs,
                        strs: sub.strs,
                        exts: sub.exts,
                        args: 0,
                        err: Some(LocErr { value: CErrView::UnknownSize, pos: x.pos }),
                    },
                    Some(sz) => match spec_register_size(*typ) {
                        Option::None => CallOut {
                            instrs: sub.instrs,
                            strs: sub.strs,
                            exts: sub.exts,
                            args: 0,
                            err: Some(LocErr { value: CErrView::InvalidType(*typ), pos: x.pos }),
                        },
                        Some(rs) => {
                            let rec = sp_call_args(
                                fname,
                                pool + sub.strs.len(),
                                items.drop_last(),
                            );
                            CallOut {
                                instrs: sub.instrs + rec.instrs,
                                strs: sub.strs + rec.strs,
                                exts: sub.exts + rec.exts,
                                args: spec_size_bytes(rs) * sz + rec.args,
                                err: rec.err,
                            }
                        },
                    },
                },
                _ => match spec_register_size(t) {
                    Option::None => CallOut {
                        instrs: sub.instrs,
                        strs: sub.strs,
                        exts: sub.exts,
                        args: 0,
                        err: Some(LocErr { value: CErrView::InvalidType(t), pos: x.pos }),
                    },
                    Some(rs) => {
                        let rec = sp_call_args(fname, pool + sub.strs.len(), items.drop_last());
                        CallOut {
                            instrs: sub.instrs.push(
                                InstrView::Push {
                                    src: SrcView::Register(
                                        Register { name: RegisterName::A, size: rs },
                                    ),
                                },
                            ) + rec.instrs,
                            strs: sub.strs + rec.strs,
                            exts: sub.exts + rec.exts,
                            args: spec_size_bytes(rs) + rec.args,
                            err: rec.err,
                        }
                    },
                },
            },
        }
    }
}

/// Compiles a sequence of top-level nodes in order, discarding each node's
/// type; the first failure wins.
pub open spec fn sp_compile_seq(fname: Seq<char>, pool: nat, nodes: Seq<NodeView>) -> Emit
    decreases nodes_size(nodes), 1int,
    via sp_compile_seq_dec
{
    if nodes.len() == 0 {
        Emit {
            instrs: Seq::<InstrView>::empty(),
            strs: Seq::<Seq<char>>::empty(),
            exts: Seq::<Seq<char>>::empty(),
            res: Ok(Type::NoneType),
        }
    } else {
        let sub = sp_compile(fname, pool, nodes[0]);
        match sub.res {
            Err(e) => Emit { instrs: sub.instrs, strs: sub.strs, exts: sub.exts, res: Err(e) },
            Ok(t) => {
                let rec = sp_compile_seq(fname, pool + sub.strs.len(), nodes.drop_first());
                Emit {
                    instrs: sub.instrs + rec.instrs,
                    strs: sub.strs + rec.strs,
                    exts: sub.exts + rec.exts,
                    res: rec.res,
                }
            },
        }
    }
}

#[via_fn]
proof fn sp_compile_dec(fname: Seq<char>, pool: nat, n: NodeView) {
    match n.value {
        SExprView::Expr(es) => {
            if es.len() > 0 {
                lemma_nodes_size_first(es);
            }
        },
        _ => {},
    }
}

#[via_fn]
proof fn sp_add_dec(fname: Seq<char>, pool: nat, list_pos: Position, rest: Seq<NodeView>) {
    if rest.len() == 2 {
        lemma_nodes_size_elem(rest, 0);
        lemma_nodes_size_elem(rest, 1);
    }
}

#[via_fn]
proof fn sp_ext_items_dec(fname: Seq<char>, pool: nat, items: Seq<NodeView>) {
    if items.len() > 0 {
        lemma_nodes_size_elem(items, items.len() - 1);
    }
}

#[via_fn]
proof fn sp_call_args_dec(fname: Seq<char>, pool: nat, items: Seq<NodeView>) {
    if items.len() > 0 {
        lemma_nodes_size_elem(items, items.len() - 1);
    }
}

#[via_fn]
proof fn sp_compile_seq_dec(fname: Seq<char>, pool: nat, nodes: Seq<NodeView>) {
    if nodes.len() > 0 {
        lemma_nodes_size_first(nodes);
    }
}

/// Any type a compiled node yields keeps the compiler's byte totals under
/// the node's budget.
pub proof fn lemma_sp_compile_fits(fname: Seq<char>, pool: nat, n: NodeView)
    requires
        node_budget(n) <= usize::MAX,
    ensures
        sp_compile(fname, pool, n).res matches Ok(t) ==> type_fits(t, node_budget(n)),
    decreases node_size(n), 0int,
{
    match n.value {
        SExprView::Expr(es) => {
            if es.len() > 0 {
                lemma_nodes_size_first(es);
                lemma_nodes_budget_first(es);
                let rest = es.drop_first();
                match es[0].value {
                    SExprView::Word(w) => {
                        if w == "+"@ {
                            lemma_sp_add_fits(fname, pool, n.pos, rest);
                        } else if w == "extern"@ {
                            lemma_sp_ext_items_res(fname, pool, rest);
                        }
                    },
                    _ => {},
                }
            }
        },
        _ => {},
    }
}

/// Any type the addition form yields keeps the byte totals under its
/// operands' summed budget.
pub proof fn lemma_sp_add_fits(fname: Seq<char>, pool: nat, list_pos: Position, rest: Seq<NodeView>)
    requires
        nodes_budget(rest) <= usize::MAX,
    ensures
        sp_add(fname, pool, list_pos, rest).res matches Ok(t) ==> type_fits(
            t,
            nodes_budget(rest),
        ),
    decreases nodes_size(rest), 1int,
{
    if rest.len() == 2 {
        lemma_nodes_size_elem(rest, 0);
        lemma_nodes_budget_elem(rest, 0);
        lemma_sp_compile_fits(fname, pool, rest[0]);
    }
}

/// The extern form yields only the absence of a value.
pub proof fn lemma_sp_ext_items_res(fname: Seq<char>, pool: nat, items: Seq<NodeView>)
    ensures
        sp_ext_items(fname, pool, items).res matches Ok(t) ==> t == Type::NoneType,
    decreases nodes_size(items), 1int,
{
    if items.len() > 0 {
        lemma_nodes_size_elem(items, items.len() - 1);
        let x = items.last();
        match x.value {
            SExprView::Word(nm) => {
                lemma_sp_ext_items_res(fname, pool, items.drop_last());
            },
            SExprView::Str(nm) => {
                lemma_sp_ext_items_res(fname, pool, items.drop_last());
            },
            _ => {},
        }
    }
}

/// A call's byte total is nonnegative and bounded by the arguments' summed
/// budget.
pub proof fn lemma_sp_call_args_bound(fname: Seq<char>, pool: nat, items: Seq<NodeView>)
    requires
        nodes_budget(items) <= usize::MAX,
    ensures
        0 <= sp_call_args(fname, pool, items).args <= nodes_budget(items),
    decreases nodes_size(items), 1int,
{
    if items.len() > 0 {
        let x = items.last();
        lemma_nodes_size_elem(items, items.len() - 1);
        lemma_nodes_budget_elem(items, items.len() - 1);
        lemma_sp_compile_fits(fname, pool, x);
        let sub = sp_compile(fname, pool, x);
        match sub.res {
            Err(e) => {},
            Ok(t) => match t {
                Type::Array { typ, size } => match size {
                    Option::None => {},
                    Some(sz) => match spec_register_size(*typ) {
                        Option::None => {},
                        Some(rs) => {
                            lemma_sp_call_args_bound(
                                fname,
                                pool + sub.strs.len(),
                                items.drop_last(),
                            );
                        },
                    },
                },
                _ => match spec_register_size(t) {
                    Option::None => {},
                    Some(rs) => {
                        lemma_sp_call_args_bound(fname, pool + sub.strs.len(), items.drop_last());
                    },
                },
            },
        }
    }
}


/// The fields of a frame that compiling a node never changes.
pub open spec fn frame_keeps(a: Frame, b: Frame) -> bool {
    &&& b.function.name == a.function.name
    &&& b.function.registers == a.function.registers
    &&& b.function.return_type == a.function.return_type
    &&& b.scopes == a.scopes
    &&& b.registers == a.registers
}

/// How one compilation step changes the state: the instructions and string
/// constants land at the end of the top frame, the extern names at the end
/// of the program's list, and nothing else moves.
pub open spec fn emit_applied(
    oldc: Compiler,
    newc: Compiler,
    instrs: Seq<InstrView>,
    strs: Seq<Seq<char>>,
    exts: Seq<Seq<char>>,
) -> bool {
    &&& oldc.frames@.len() >= 1
    &&& newc.frames@.len() == oldc.frames@.len()
    &&& newc.frames@.drop_last() == oldc.frames@.drop_last()
    &&& frame_keeps(oldc.frames@.last(), newc.frames@.last())
    &&& function_view(newc.frames@.last().function).body == function_view(
        oldc.frames@.last().function,
    ).body + instrs
    &&& function_view(newc.frames@.last().function).strings == function_view(
        oldc.frames@.last().function,
    ).strings + strs
    &&& newc.program.functions == oldc.program.functions
    &&& program_view(newc.program).externs == program_view(oldc.program).externs + exts
}

/// Appending one extern name, with the frames untouched, is one
/// compilation step that emits only that name.
pub proof fn lemma_extern_push_emit(c0: Compiler, c1: Compiler, name: String)
    requires
        c0.frames@.len() >= 1,
        c1.frames == c0.frames,
        c1.program.functions == c0.program.functions,
        c1.program.externs@ == c0.program.externs@.push(name),
    ensures
        emit_applied(
            c0,
            c1,
            Seq::<InstrView>::empty(),
            Seq::<Seq<char>>::empty(),
            seq![name@],
        ),
{
    assert(function_view(c1.frames@.last().function).body =~= function_view(
        c0.frames@.last().function,
    ).body + Seq::<InstrView>::empty());
    assert(function_view(c1.frames@.last().function).strings =~= function_view(
        c0.frames@.last().function,
    ).strings + Seq::<Seq<char>>::empty());
    assert(program_view(c1.program).externs =~= program_view(c0.program).externs + seq![name@]);
}

/// A state emits nothing into itself.
pub proof fn lemma_emit_refl(c: Compiler)
    requires
        c.frames@.len() >= 1,
    ensures
        emit_applied(
            c,
            c,
            Seq::<InstrView>::empty(),
            Seq::<Seq<char>>::empty(),
            Seq::<Seq<char>>::empty(),
        ),
{
    assert(function_view(c.frames@.last().function).body + Seq::<InstrView>::empty()
        =~= function_view(c.frames@.last().function).body);
    assert(function_view(c.frames@.last().function).strings + Seq::<Seq<char>>::empty()
        =~= function_view(c.frames@.last().function).strings);
    assert(program_view(c.program).externs + Seq::<Seq<char>>::empty() =~= program_view(
        c.program,
    ).externs);
}

/// Two compilation steps compose.
pub proof fn lemma_emit_trans(
    c0: Compiler,
    c1: Compiler,
    c2: Compiler,
    i1: Seq<InstrView>,
    s1: Seq<Seq<char>>,
    e1: Seq<Seq<char>>,
    i2: Seq<InstrView>,
    s2: Seq<Seq<char>>,
    e2: Seq<Seq<char>>,
)
    requires
        emit_applied(c0, c1, i1, s1, e1),
        emit_applied(c1, c2, i2, s2, e2),
    ensures
        emit_applied(c0, c2, i1 + i2, s1 + s2, e1 + e2),
{
    assert(function_view(c0.frames@.last().function).body + i1 + i2 =~= function_view(
        c0.frames@.last().function,
    ).body + (i1 + i2));
    assert(function_view(c0.frames@.last().function).strings + s1 + s2 =~= function_view(
        c0.frames@.last().function,
    ).strings + (s1 + s2));
    assert(program_view(c0.program).externs + e1 + e2 =~= program_view(c0.program).externs + (e1
        + e2));
}

impl Frame {
    /// Appends one instruction to the function under construction and
    /// returns its address in the body.
    pub fn write(&mut self, instr: Instruction) -> (addr: usize)
        ensures
            addr == old(self).function.body@.len(),
            final(self).function.body@ == old(self).function.body@.push(instr),
            final(self).function.name == old(self).function.name,
            final(self).function.registers == old(self).function.registers,
            final(self).function.return_type == old(self).function.return_type,
            final(self).function.strings == old(self).function.strings,
            final(self).scopes == old(self).scopes,
            final(self).registers == old(self).registers,
    {
        let addr = self.function.body.len();
        self.function.body.push(instr);
        addr
    }

    /// Registers one string constant in the pool and returns its generated
    /// symbolic name.
    pub fn new_string(&mut self, string: String) -> (r: String)
        ensures
            r@ == const_name(old(self).function.name@, old(self).function.strings@.len() as nat),
            final(self).function.strings@ == old(self).function.strings@.push(string),
            final(self).function.name == old(self).function.name,
            final(self).function.registers == old(self).function.registers,
            final(self).function.return_type == old(self).function.return_type,
            final(self).function.body == old(self).function.body,
            final(self).scopes == old(self).scopes,
            final(self).registers == old(self).registers,
    {
        let idx = self.function.strings.len();
        self.function.strings.push(string);
        let mut name = self.function.name.clone();
        name.append("_c");
        push_dec_usize(&mut name, idx);
        proof {
            assert(name@ =~= const_name(old(self).function.name@, idx as nat));
        }
        name
    }
}

impl Compiler {
    /// The frame on top of the stack.
    pub fn frame(&self) -> (fr: &Frame)
        requires
            self.frames.len() >= 1,
        ensures
            *fr == self.frames@.last(),
    {
        let i = self.frames.len() - 1;
        &self.frames[i]
    }

    /// The frame on top of the stack, for writing.
    pub fn frame_mut(&mut self) -> (fr: &mut Frame)
        requires
            old(self).frames.len() >= 1,
        ensures
            *fr == old(self).frames@.last(),
            final(self).frames@ == old(self).frames@.update(
                old(self).frames@.len() - 1,
                *final(fr),
            ),
            final(self).program == old(self).program,
    {
        let i = self.frames.len() - 1;
        &mut self.frames[i]
    }

    /// Appends one instruction to the top frame's function.
    pub fn write(&mut self, instr: Instruction) -> (addr: usize)
        requires
            old(self).frames.len() >= 1,
        ensures
            addr == old(self).frames@.last().function.body@.len(),
            emit_applied(
                *old(self),
                *final(self),
                seq![instr_view(instr)],
                Seq::<Seq<char>>::empty(),
                Seq::<Seq<char>>::empty(),
            ),
            final(self).program == old(self).program,
            final(self).frames@.last().function.strings == old(
                self,
            ).frames@.last().function.strings,
            final(self).frames@.last().function.body@ == old(
                self,
            ).frames@.last().function.body@.push(instr),
    {
        let fr = self.frame_mut();
        let addr = fr.write(instr);
        proof {
            assert(final(self).frames@.drop_last() =~= old(self).frames@.drop_last());
            assert(final(self).frames@.last() == final(self).frames@[old(self).frames@.len() - 1]);
            assert(function_view(final(self).frames@.last().function).body =~= function_view(
                old(self).frames@.last().function,
            ).body + seq![instr_view(instr)]);
            assert(function_view(final(self).frames@.last().function).strings =~= function_view(
                old(self).frames@.last().function,
            ).strings + Seq::<Seq<char>>::empty());
            assert(program_view(final(self).program).externs =~= program_view(
                old(self).program,
            ).externs + Seq::<Seq<char>>::empty());
        }
        addr
    }

    /// Registers one string constant in the top frame's pool and returns its
    /// generated symbolic name.
    pub fn new_string(&mut self, string: String) -> (r: String)
        requires
            old(self).frames.len() >= 1,
        ensures
            r@ == const_name(
                old(self).frames@.last().function.name@,
                old(self).frames@.last().function.strings@.len() as nat,
            ),
            emit_applied(
                *old(self),
                *final(self),
                Seq::<InstrView>::empty(),
                seq![string@],
                Seq::<Seq<char>>::empty(),
            ),
    {
        let fr = self.frame_mut();
        let r = fr.new_string(string);
        proof {
            assert(final(self).frames@.drop_last() =~= old(self).frames@.drop_last());
            assert(final(self).frames@.last() == final(self).frames@[old(self).frames@.len() - 1]);
            assert(function_view(final(self).frames@.last().function).body =~= function_view(
                old(self).frames@.last().function,
            ).body + Seq::<InstrView>::empty());
            assert(function_view(final(self).frames@.last().function).strings =~= function_view(
                old(self).frames@.last().function,
            ).strings + seq![string@]);
            assert(program_view(final(self).program).externs =~= program_view(
                old(self).program,
            ).externs + Seq::<Seq<char>>::empty());
        }
        r
    }

    /// Appends one extern-symbol name to the program's list. The frame
    /// stack plays no part and may be empty.
    pub fn new_extern(&mut self, name: String)
        ensures
            final(self).frames == old(self).frames,
            final(self).program.functions == old(self).program.functions,
            final(self).program.externs@ == old(self).program.externs@.push(name),
    {
        self.program.externs.push(name);
    }

    /// Opens a frame for a new function and emits its prologue.
    pub fn push_frame(&mut self, name: String)
        ensures
            final(self).frames@.len() == old(self).frames@.len() + 1,
            final(self).frames@.drop_last() == old(self).frames@,
            ({
                let fr = final(self).frames@.last();
                &&& fr.function.name@ == name@
                &&& fr.function.registers == 0
                &&& fr.function.return_type == Type::NoneType
                &&& function_view(fr.function).body == prologue()
                &&& fr.function.strings@.len() == 0
                &&& fr.scopes@.len() == 1
                &&& fr.scopes@[0].locals@.len() == 0
                &&& fr.scopes@[0].offset == 0
                &&& fr.registers == 0
            }),
            final(self).program == old(self).program,
    {
        let ghost nv = name@;
        self.frames.push(
            Frame {
                function: Function {
                    name,
                    registers: 0,
                    return_type: Type::default(),
                    body: Vec::new(),
                    strings: Vec::new(),
                },
                scopes: vec![Scope::default()],
                registers: 0,
            },
        );
        let ghost mid = *self;
        self.write(
            Instruction::Push {
                src: Source::Register(
                    Register { name: RegisterName::BP, size: RegisterSize::S32 },
                ),
            },
        );
        let ghost mid2 = *self;
        self.write(
            Instruction::Mov {
                dest: Destination::Register(
                    Register { name: RegisterName::BP, size: RegisterSize::S32 },
                ),
                src: Source::Register(
                    Register { name: RegisterName::SP, size: RegisterSize::S32 },
                ),
            },
        );
        proof {
            assert(mid.frames@.drop_last() =~= old(self).frames@);
            assert(function_view(mid.frames@.last().function).body =~= Seq::<InstrView>::empty());
            assert(final(self).frames@.drop_last() =~= mid.frames@.drop_last());
            assert(function_view(final(self).frames@.last().function).body =~= function_view(
                mid.frames@.last().function,
            ).body + seq![instr_view(mid2.frames@.last().function.body@.last())]
                + seq![instr_view(final(self).frames@.last().function.body@.last())]);
            assert(function_view(final(self).frames@.last().function).body =~= prologue());
        }
    }

    /// Emits the epilogue of the top frame, closes it, and moves its
    /// finished function into the program.
    pub fn pop_frame(&mut self)
        requires
            old(self).frames.len() >= 1,
        ensures
            final(self).frames@ == old(self).frames@.drop_last(),
            final(self).program.externs == old(self).program.externs,
            final(self).program.functions@.len() == old(self).program.functions@.len() + 1,
            final(self).program.functions@.drop_last() == old(self).program.functions@,
            ({
                let f = final(self).program.functions@.last();
                let oldfr = old(self).frames@.last();
                &&& f.name == oldfr.function.name
                &&& f.registers == oldfr.function.registers
                &&& f.return_type == oldfr.function.return_type
                &&& function_view(f).body == function_view(oldfr.function).body + epilogue(
                    oldfr.registers,
                )
                &&& f.strings == oldfr.function.strings
            }),
    {
        let ghost c0 = *self;
        let registers = self.frame().registers;
        if registers > 0 {
            self.write(
                Instruction::Add {
                    dest: Destination::Register(
                        Register { name: RegisterName::SP, size: RegisterSize::S32 },
                    ),
                    src: Source::Amount(registers),
                },
            );
        }
        let ghost c1 = *self;
        self.write(Instruction::Leave);
        self.write(Instruction::Ret);
        proof {
            assert(function_view(c1.frames@.last().function).body =~= function_view(
                c0.frames@.last().function,
            ).body + (if registers > 0 {
                seq![
                    InstrView::Add {
                        dest: Destination::Register(
                            Register { name: RegisterName::SP, size: RegisterSize::S32 },
                        ),
                        src: SrcView::Amount(registers),
                    },
                ]
            } else {
                Seq::<InstrView>::empty()
            }));
            assert(function_view(self.frames@.last().function).body =~= function_view(
                c0.frames@.last().function,
            ).body + epilogue(registers));
        }
        let ghost mid = *self;
        match self.frames.pop() {
            Some(frame) => {
                self.program.functions.push(frame.function);
            },
            Option::None => {
                proof {
                    assert(false);
                }
            },
        }
        proof {
            assert(final(self).frames@ =~= old(self).frames@.drop_last());
            assert(final(self).program.functions@.drop_last() =~= old(
                self,
            ).program.functions@);
            assert(final(self).program.functions@.last() == mid.frames@.last().function);
            assert(function_view(final(self).program.functions@.last()).body =~= function_view(
                old(self).frames@.last().function,
            ).body + epilogue(old(self).frames@.last().registers));
        }
    }
}


/// The loop relation while a call's arguments are laid down: what the whole
/// argument list emits equals what is already emitted plus what the
/// remaining arguments will emit.
pub open spec fn call_loop_inv(
    fname: Seq<char>,
    pool0: nat,
    co_total: CallOut,
    ex: Seq<InstrView>,
    ey: Seq<Seq<char>>,
    ez: Seq<Seq<char>>,
    args: int,
    rem: Seq<NodeView>,
) -> bool {
    let rec = sp_call_args(fname, pool0 + ey.len(), rem);
    &&& co_total.instrs == ex + rec.instrs
    &&& co_total.strs == ey + rec.strs
    &&& co_total.exts == ez + rec.exts
    &&& co_total.err == rec.err
    &&& co_total.args == args + rec.args
}

/// The loop relation while extern names are registered.
pub open spec fn ext_loop_inv(
    fname: Seq<char>,
    pool0: nat,
    em_total: Emit,
    ex: Seq<InstrView>,
    ey: Seq<Seq<char>>,
    ez: Seq<Seq<char>>,
    rem: Seq<NodeView>,
) -> bool {
    let rec = sp_ext_items(fname, pool0 + ey.len(), rem);
    &&& em_total.instrs == ex + rec.instrs
    &&& em_total.strs == ey + rec.strs
    &&& em_total.exts == ez + rec.exts
    &&& em_total.res == rec.res
}

impl Compiler {
    /// Compiles one node into the top frame, returning the node's type.
    /// Dispatch follows the node's shape: an empty list is a no-op; a list
    /// headed by a word selects the addition form, the extern form or a
    /// call; an integer literal loads the accumulator; a string literal is
    /// pooled and its address pushed; a bare word and a float literal are
    /// not supported yet and fail.
    #[verifier::loop_isolation(false)]
    #[verifier::rlimit(100)]
    pub fn compile(&mut self, node: Located<SExpr>) -> (r: Result<Type, Located<CompileError>>)
        requires
            old(self).frames.len() >= 1,
            node_budget(node_view(node)) <= usize::MAX,
        ensures
            ({
                let em = sp_compile(
                    old(self).frames@.last().function.name@,
                    old(self).frames@.last().function.strings@.len() as nat,
                    node_view(node),
                );
                &&& emit_applied(*old(self), *final(self), em.instrs, em.strs, em.exts)
                &&& (em.res matches Ok(t) ==> r == Ok::<Type, Located<CompileError>>(t))
                &&& (em.res matches Err(le) ==> (r matches Err(e) && loc_err_view(e) == le))
            }),
        decreases node_size(node_view(node)),
    {
        let ghost c_entry = *old(self);
        let ghost nv = node_view(node);
        let ghost fname0 = c_entry.frames@.last().function.name@;
        let ghost pool0 = c_entry.frames@.last().function.strings@.len() as nat;
        let ghost em = sp_compile(fname0, pool0, nv);
        let Located { value: sexpr, pos } = node;
        match sexpr {
            SExpr::Expr(mut sexprs) => {
                let ghost es = nodes_view(sexprs@);
                proof {
                    assert(nv.value == SExprView::Expr(es));
                    assert(nv.pos == pos);
                    lemma_nodes_view(sexprs@);
                }
                if sexprs.len() == 0 {
                    proof {
                        lemma_emit_refl(c_entry);
                    }
                    return Ok(Type::NoneType);
                }
                proof {
                    lemma_nodes_size_first(es);
                    lemma_nodes_budget_first(es);
                }
                let ghost sexprs_all = sexprs@;
                let Located { value: head, pos: head_pos } = sexprs.remove(0);
                let ghost rest_v = es.drop_first();
                proof {
                    assert(sexprs@ =~= sexprs_all.drop_first());
                    lemma_nodes_view(sexprs@);
                    assert(nodes_view(sexprs@) =~= rest_v);
                    assert(node_view(sexprs_all[0]) == es[0]);
                    assert(head_pos == es[0].pos);
                }
                match head {
                    SExpr::Word(word) => {
                        proof {
                            assert(es[0].value == SExprView::Word(word@));
                        }
                        if str_eq(word.as_str(), "+") {
                            proof {
                                assert(em == sp_add(fname0, pool0, pos, rest_v));
                            }
                            if sexprs.len() != 2 {
                                proof {
                                    lemma_emit_refl(c_entry);
                                }
                                return Err(
                                    Located { value: CompileError::ExpectedArgs(2), pos },
                                );
                            }
                            let left = sexprs.remove(0);
                            let left_pos = left.pos;
                            let right = sexprs.remove(0);
                            let right_pos = right.pos;
                            let ghost left_v = rest_v[0];
                            let ghost right_v = rest_v[1];
                            proof {
                                assert(node_view(left) == left_v);
                                assert(node_view(right) == right_v);
                                assert(left_pos == left_v.pos);
                                assert(right_pos == right_v.pos);
                                lemma_nodes_size_elem(rest_v, 0);
                                lemma_nodes_size_elem(rest_v, 1);
                                lemma_nodes_budget_elem(rest_v, 0);
                                lemma_nodes_budget_elem(rest_v, 1);
                            }
                            let ghost sub1 = sp_compile(fname0, pool0, left_v);
                            match self.compile(left) {
                                Err(e) => {
                                    return Err(e);
                                },
                                Ok(left_typ) => {
                                    let ghost s1 = *self;
                                    match RegisterSize::typ(&left_typ) {
                                        Option::None => {
                                            return Err(
                                                Located {
                                                    value: CompileError::InvalidType(left_typ),
                                                    pos: left_pos,
                                                },
                                            );
                                        },
                                        Some(size) => {
                                            self.write(
                                                Instruction::Push {
                                                    src: Source::Register(
                                                        Register { name: RegisterName::A, size },
                                                    ),
                                                },
                                            );
                                            let ghost s2 = *self;
                                            proof {
                                                let spill = InstrView::Push {
                                                    src: SrcView::Register(
                                                        Register { name: RegisterName::A, size },
                                                    ),
                                                };
                                                lemma_emit_trans(
                                                    c_entry,
                                                    s1,
                                                    s2,
                                                    sub1.instrs,
                                                    sub1.strs,
                                                    sub1.exts,
                                                    seq![spill],
                                                    Seq::<Seq<char>>::empty(),
                                                    Seq::<Seq<char>>::empty(),
                                                );
                                                assert(sub1.instrs + seq![spill] =~= sub1.instrs.push(
                                                    spill,
                                                ));
                                                assert(sub1.strs + Seq::<Seq<char>>::empty()
                                                    =~= sub1.strs);
                                                assert(sub1.exts + Seq::<Seq<char>>::empty()
                                                    =~= sub1.exts);
                                                assert(s2.frames@.last().function.strings@.len()
                                                    as nat == pool0 + sub1.strs.len());
                                            }
                                            let ghost sub2 = sp_compile(
                                                fname0,
                                                pool0 + sub1.strs.len(),
                                                right_v,
                                            );
                                            match self.compile(right) {
                                                Err(e) => {
                                                    let ghost s3 = *self;
                                                    proof {
                                                        lemma_emit_trans(
                                                            c_entry,
                                                            s2,
                                                            s3,
                                                            sub1.instrs.push(
                                                                InstrView::Push {
                                                                    src: SrcView::Register(
                                                                        Register {
                                                                            name: RegisterName::A,
                                                                            size,
                                                                        },
                                                                    ),
                                                                },
                                                            ),
                                                            sub1.strs,
                                                            sub1.exts,
                                                            sub2.instrs,
                                                            sub2.strs,
                                                            sub2.exts,
                                                        );
                                                    }
                                                    return Err(e);
                                                },
                                                Ok(right_typ) => {
                                                    let ghost s3 = *self;
                                                    proof {
                                                        lemma_emit_trans(
                                                            c_entry,
                                                            s2,
                                                            s3,
                                                            sub1.instrs.push(
                                                                InstrView::Push {
                                                                    src: SrcView::Register(
                                                                        Register {
                                                                            name: RegisterName::A,
                                                                            size,
                                                                        },
                                                                    ),
                                                                },
                                                            ),
                                                            sub1.strs,
                                                            sub1.exts,
                                                            sub2.instrs,
                                                            sub2.strs,
                                                            sub2.exts,
                                                        );
                                                    }
                                                    if right_typ != left_typ {
                                                        return Err(
                                                            Located {
                                                                value:
                                                                    CompileError::InvalidTypeExpected {
                                                                    expected: left_typ,
                                                                    got: right_typ,
                                                                },
                                                                pos: right_pos,
                                                            },
                                                        );
                                                    }
                                                    self.write(
                                                        Instruction::Mov {
                                                            dest: Destination::Register(
                                                                Register {
                                                                    name: RegisterName::B,
                                                                    size,
                                                                },
                                                            ),
                                                            src: Source::Register(
                                                                Register {
                                                                    name: RegisterName::A,
                                                                    size,
                                                                },
                                                            ),
                                                        },
                                                    );
                                                    let ghost s4 = *self;
                                                    self.write(
                                                        Instruction::Pop {
                                                            dest: Destination::Register(
                                                                Register {
                                                                    name: RegisterName::A,
                                                                    size,
                                                                },
                                                            ),
                                                        },
                                                    );
                                                    let ghost s5 = *self;
                                                    self.write(
                                                        Instruction::Add {
                                                            dest: Destination::Register(
                                                                Register {
                                                                    name: RegisterName::A,
                                                                    size,
                                                                },
                                                            ),
                                                            src: Source::Register(
                                                                Register {
                                                                    name: RegisterName::B,
                                                                    size,
                                                                },
                                                            ),
                                                        },
                                                    );
                                                    proof {
                                                        let m1 = InstrView::Mov {
                                                            dest: Destination::Register(
                                                                Register {
                                                                    name: RegisterName::B,
                                                                    size,
                                                                },
                                                            ),
                                                            src: SrcView::Register(
                                                                Register {
                                                                    name: RegisterName::A,
                                                                    size,
                                                                },
                                                            ),
                                                        };
                                                        let m2 = InstrView::Pop {
                                                            dest: Destination::Register(
                                                                Register {
                                                                    name: RegisterName::A,
                                                                    size,
                                                                },
                                                            ),
                                                        };
                                                        let m3 = InstrView::Add {
                                                            dest: Destination::Register(
                                                                Register {
                                                                    name: RegisterName::A,
                                                                    size,
                                                                },
                                                            ),
                                                            src: SrcView::Register(
                                                                Register {
                                                                    name: RegisterName::B,
                                                                    size,
                                                                },
                                                            ),
                                                        };
                                                        lemma_emit_trans(
                                                            s3,
                                                            s4,
                                                            s5,
                                                            seq![m1],
                                                            Seq::<Seq<char>>::empty(),
                                                            Seq::<Seq<char>>::empty(),
                                                            seq![m2],
                                                            Seq::<Seq<char>>::empty(),
                                                            Seq::<Seq<char>>::empty(),
                                                        );
                                                        lemma_emit_trans(
                                                            s3,
                                                            s5,
                                                            *self,
                                                            seq![m1] + seq![m2],
                                                            Seq::<Seq<char>>::empty()
                                                                + Seq::<Seq<char>>::empty(),
                                                            Seq::<Seq<char>>::empty()
                                                                + Seq::<Seq<char>>::empty(),
                                                            seq![m3],
                                                            Seq::<Seq<char>>::empty(),
                                                            Seq::<Seq<char>>::empty(),
                                                        );
                                                        let tail = seq![
                                                            InstrView::Mov {
                                                                dest: Destination::Register(
                                                                    Register {
                                                                        name: RegisterName::B,
                                                                        size,
                                                                    },
                                                                ),
                                                                src: SrcView::Register(
                                                                    Register {
                                                                        name: RegisterName::A,
                                                                        size,
                                                                    },
                                                                ),
                                                            },
                                                            InstrView::Pop {
                                                                dest: Destination::Register(
                                                                    Register {
                                                                        name: RegisterName::A,
                                                                        size,
                                                                    },
                                                                ),
                                                            },
                                                            InstrView::Add {
                                                                dest: Destination::Register(
                                                                    Register {
                                                                        name: RegisterName::A,
                                                                        size,
                                                                    },
                                                                ),
                                                                src: SrcView::Register(
                                                                    Register {
                                                                        name: RegisterName::B,
                                                                        size,
                                                                    },
                                                                ),
                                                            },
                                                        ];
                                                        assert((seq![m1] + seq![m2])
                                                            + seq![m3] =~= tail);
                                                        assert((Seq::<Seq<char>>::empty()
                                                            + Seq::<Seq<char>>::empty())
                                                            + Seq::<Seq<char>>::empty() =~= Seq::<
                                                            Seq<char>,
                                                        >::empty());
                                                        lemma_emit_trans(
                                                            c_entry,
                                                            s3,
                                                            *self,
                                                            sub1.instrs.push(
                                                                InstrView::Push {
                                                                    src: SrcView::Register(
                                                                        Register {
                                                                            name: RegisterName::A,
                                                                            size,
                                                                        },
                                                                    ),
                                                                },
                                                            ) + sub2.instrs,
                                                            sub1.strs + sub2.strs,
                                                            sub1.exts + sub2.exts,
                                                            tail,
                                                            Seq::<Seq<char>>::empty(),
                                                            Seq::<Seq<char>>::empty(),
                                                        );
                                                        assert(function_view(
                                                            self.frames@.last().function,
                                                        ).body =~= function_view(
                                                            s3.frames@.last().function,
                                                        ).body + tail);
                                                        assert((sub1.strs + sub2.strs)
                                                            + Seq::<Seq<char>>::empty()
                                                            =~= sub1.strs + sub2.strs);
                                                        assert((sub1.exts + sub2.exts)
                                                            + Seq::<Seq<char>>::empty()
                                                            =~= sub1.exts + sub2.exts);
                                                    }
                                                    Ok(left_typ)
                                                },
                                            }
                                        },
                                    }
                                },
                            }
                        } else if str_eq(word.as_str(), "extern") {
                            proof {
                                assert(em == sp_ext_items(fname0, pool0, rest_v));
                            }
                            let ghost items0 = rest_v;
                            let ghost mut ex: Seq<InstrView> = Seq::empty();
                            let ghost mut ey: Seq<Seq<char>> = Seq::empty();
                            let ghost mut ez: Seq<Seq<char>> = Seq::empty();
                            proof {
                                lemma_emit_refl(c_entry);
                                assert(ex + sp_ext_items(fname0, pool0, items0).instrs
                                    =~= sp_ext_items(fname0, pool0, items0).instrs);
                                assert(ey + sp_ext_items(fname0, pool0, items0).strs
                                    =~= sp_ext_items(fname0, pool0, items0).strs);
                                assert(ez + sp_ext_items(fname0, pool0, items0).exts
                                    =~= sp_ext_items(fname0, pool0, items0).exts);
                            }
                            while sexprs.len() > 0
                                invariant
                                    self.frames@.len() == c_entry.frames@.len(),
                                    emit_applied(c_entry, *self, ex, ey, ez),
                                    ext_loop_inv(
                                        fname0,
                                        pool0,
                                        em,
                                        ex,
                                        ey,
                                        ez,
                                        nodes_view(sexprs@),
                                    ),
                                    nodes_size(nodes_view(sexprs@)) <= nodes_size(items0),
                                    nodes_budget(nodes_view(sexprs@)) <= nodes_budget(items0),
                                    self.frames@.last().function.name@ == fname0,
                                    self.frames@.last().function.strings@.len() as nat == pool0
                                        + ey.len(),
                                decreases sexprs@.len(),
                            {
                                let ghost rem_pre = nodes_view(sexprs@);
                                let ghost pool_pre = pool0 + ey.len();
                                match sexprs.pop() {
                                    Option::None => {
                                        proof {
                                            assert(false);
                                        }
                                    },
                                    Some(x) => {
                                        proof {
                                            assert(node_view(x) == rem_pre.last());
                                            assert(nodes_view(sexprs@) =~= rem_pre.drop_last());
                                            lemma_nodes_size_elem(rem_pre, rem_pre.len() - 1);
                                            lemma_nodes_budget_elem(rem_pre, rem_pre.len() - 1);
                                        }
                                        let ghost xv = node_view(x);
                                        let Located { value: xval, pos: xpos } = x;
                                        match xval {
                                            SExpr::Word(nm) => {
                                                let ghost nmv = nm@;
                                                let ghost nm_snap = nm;
                                                let ghost s_pre = *self;
                                                self.new_extern(nm);
                                                proof {
                                                    lemma_extern_push_emit(
                                                        s_pre,
                                                        *self,
                                                        nm_snap,
                                                    );
                                                    lemma_emit_trans(
                                                        c_entry,
                                                        s_pre,
                                                        *self,
                                                        ex,
                                                        ey,
                                                        ez,
                                                        Seq::<InstrView>::empty(),
                                                        Seq::<Seq<char>>::empty(),
                                                        seq![nmv],
                                                    );
                                                    assert(ex + Seq::<InstrView>::empty() =~= ex);
                                                    assert(ey + Seq::<Seq<char>>::empty() =~= ey);
                                                    let ez0 = ez;
                                                    ez = ez + seq![nmv];
                                                    let rec_next = sp_ext_items(
                                                        fname0,
                                                        pool_pre,
                                                        rem_pre.drop_last(),
                                                    );
                                                    assert(ez0 + (seq![nmv] + rec_next.exts)
                                                        =~= ez + rec_next.exts);
                                                }
                                            },
                                            SExpr::Str(nm) => {
                                                let ghost nmv = nm@;
                                                let ghost nm_snap = nm;
                                                let ghost s_pre = *self;
                                                self.new_extern(nm);
                                                proof {
                                                    lemma_extern_push_emit(
                                                        s_pre,
                                                        *self,
                                                        nm_snap,
                                                    );
                                                    lemma_emit_trans(
                                                        c_entry,
                                                        s_pre,
                                                        *self,
                                                        ex,
                                                        ey,
                                                        ez,
                                                        Seq::<InstrView>::empty(),
                                                        Seq::<Seq<char>>::empty(),
                                                        seq![nmv],
                                                    );
                                                    assert(ex + Seq::<InstrView>::empty() =~= ex);
                                                    assert(ey + Seq::<Seq<char>>::empty() =~= ey);
                                                    let ez0 = ez;
                                                    ez = ez + seq![nmv];
                                                    let rec_next = sp_ext_items(
                                                        fname0,
                                                        pool_pre,
                                                        rem_pre.drop_last(),
                                                    );
                                                    assert(ez0 + (seq![nmv] + rec_next.exts)
                                                        =~= ez + rec_next.exts);
                                                }
                                            },
                                            other => {
                                                let ghost sub = sp_compile(
                                                    fname0,
                                                    pool_pre,
                                                    xv,
                                                );
                                                let ghost s_pre = *self;
                                                match self.compile(
                                                    Located { value: other, pos: xpos },
                                                ) {
                                                    Err(e) => {
                                                        proof {
                                                            lemma_emit_trans(
                                                                c_entry,
                                                                s_pre,
                                                                *self,
                                                                ex,
                                                                ey,
                                                                ez,
                                                                sub.instrs,
                                                                sub.strs,
                                                                sub.exts,
                                                            );
                                                        }
                                                        return Err(e);
                                                    },
                                                    Ok(t) => {
                                                        proof {
                                                            lemma_emit_trans(
                                                                c_entry,
                                                                s_pre,
                                                                *self,
                                                                ex,
                                                                ey,
                                                                ez,
                                                                sub.instrs,
                                                                sub.strs,
                                                                sub.exts,
                                                            );
                                                        }
                                                        return Err(
                                                            Located {
                                                                value: CompileError::InvalidType(
                                                                    t,
                                                                ),
                                                                pos: xpos,
                                                            },
                                                        );
                                                    },
                                                }
                                            },
                                        }
                                    },
                                }
                            }
                            proof {
                                assert(nodes_view(sexprs@) =~= Seq::<NodeView>::empty());
                            }
                            Ok(Type::NoneType)
                        } else {
                            let ghost items0 = rest_v;
                            let ghost co_total = sp_call_args(fname0, pool0, items0);
                            proof {
                                assert(nodes_budget(items0) <= usize::MAX);
                                lemma_sp_call_args_bound(fname0, pool0, items0);
                            }
                            let mut args: usize = 0;
                            let ghost mut ex: Seq<InstrView> = Seq::empty();
                            let ghost mut ey: Seq<Seq<char>> = Seq::empty();
                            let ghost mut ez: Seq<Seq<char>> = Seq::empty();
                            proof {
                                lemma_emit_refl(c_entry);
                                assert(ex + co_total.instrs =~= co_total.instrs);
                                assert(ey + co_total.strs =~= co_total.strs);
                                assert(ez + co_total.exts =~= co_total.exts);
                            }
                            while sexprs.len() > 0
                                invariant
                                    self.frames@.len() == c_entry.frames@.len(),
                                    emit_applied(c_entry, *self, ex, ey, ez),
                                    call_loop_inv(
                                        fname0,
                                        pool0,
                                        co_total,
                                        ex,
                                        ey,
                                        ez,
                                        args as int,
                                        nodes_view(sexprs@),
                                    ),
                                    nodes_size(nodes_view(sexprs@)) <= nodes_size(items0),
                                    nodes_budget(nodes_view(sexprs@)) <= nodes_budget(items0),
                                    self.frames@.last().function.name@ == fname0,
                                    self.frames@.last().function.strings@.len() as nat == pool0
                                        + ey.len(),
                                decreases sexprs@.len(),
                            {
                                let ghost rem_pre = nodes_view(sexprs@);
                                let ghost pool_pre = pool0 + ey.len();
                                match sexprs.pop() {
                                    Option::None => {
                                        proof {
                                            assert(false);
                                        }
                                    },
                                    Some(x) => {
                                        proof {
                                            assert(node_view(x) == rem_pre.last());
                                            assert(nodes_view(sexprs@) =~= rem_pre.drop_last());
                                            lemma_nodes_size_elem(rem_pre, rem_pre.len() - 1);
                                            lemma_nodes_budget_elem(rem_pre, rem_pre.len() - 1);
                                        }
                                        let ghost xv = node_view(x);
                                        let ghost sub = sp_compile(fname0, pool_pre, xv);
                                        let ghost s_pre = *self;
                                        let xpos = x.pos;
                                        proof {
                                            lemma_sp_compile_fits(fname0, pool_pre, xv);
                                            lemma_sp_call_args_bound(
                                                fname0,
                                                pool_pre + sub.strs.len(),
                                                rem_pre.drop_last(),
                                            );
                                        }
                                        match self.compile(x) {
                                            Err(e) => {
                                                proof {
                                                    lemma_emit_trans(
                                                        c_entry,
                                                        s_pre,
                                                        *self,
                                                        ex,
                                                        ey,
                                                        ez,
                                                        sub.instrs,
                                                        sub.strs,
                                                        sub.exts,
                                                    );
                                                }
                                                return Err(e);
                                            },
                                            Ok(typ) => {
                                                proof {
                                                    lemma_emit_trans(
                                                        c_entry,
                                                        s_pre,
                                                        *self,
                                                        ex,
                                                        ey,
                                                        ez,
                                                        sub.instrs,
                                                        sub.strs,
                                                        sub.exts,
                                                    );
                                                }
                                                match typ {
                                                    Type::Array { typ: elem, size } => {
                                                        match size {
                                                            Option::None => {
                                                                return Err(
                                                                    Located {
                                                                        value:
                                                                            CompileError::UnknownSize,
                                                                        pos: xpos,
                                                                    },
                                                                );
                                                            },
                                                            Some(sz) => {
                                                                match RegisterSize::typ(&elem) {
                                                                    Option::None => {
                                                                        return Err(
                                                                            Located {
                                                                                value:
                                                                                    CompileError::InvalidType(
                                                                                    *elem,
                                                                                ),
                                                                                pos: xpos,
                                                                            },
                                                                        );
                                                                    },
                                                                    Some(single) => {
                                                                        let bytes =
                                                                            single.bytes();
                                                                        proof {
                                                                            assert(bytes == 1);
                                                                            assert(args + bytes
                                                                                * sz
                                                                                <= co_total.args);
                                                                        }
                                                                        args = args + bytes * sz;
                                                                        proof {
                                                                            let ex0 = ex;
                                                                            let ey0 = ey;
                                                                            let ez0 = ez;
                                                                            ex = ex + sub.instrs;
                                                                            ey = ey + sub.strs;
                                                                            ez = ez + sub.exts;
                                                                            let rec_next =
                                                                                sp_call_args(
                                                                                fname0,
                                                                                pool_pre
                                                                                    + sub.strs.len(),
                                                                                rem_pre.drop_last(),
                                                                            );
                                                                            assert(ex0
                                                                                + (sub.instrs
                                                                                + rec_next.instrs)
                                                                                =~= ex
                                                                                + rec_next.instrs);
                                                                            assert(ey0 + (sub.strs
                                                                                + rec_next.strs)
                                                                                =~= ey
                                                                                + rec_next.strs);
                                                                            assert(ez0 + (sub.exts
                                                                                + rec_next.exts)
                                                                                =~= ez
                                                                                + rec_next.exts);
                                                                        }
                                                                    },
                                                                }
                                                            },
                                                        }
                                                    },
                                                    other => {
                                                        match RegisterSize::typ(&other) {
                                                            Option::None => {
                                                                return Err(
                                                                    Located {
                                                                        value:
                                                                            CompileError::InvalidType(
                                                                            other,
                                                                        ),
                                                                        pos: xpos,
                                                                    },
                                                                );
                                                            },
                                                            Some(single) => {
                                                                let bytes = single.bytes();
                                                                proof {
                                                                    assert(args + bytes
                                                                        <= co_total.args);
                                                                }
                                                                args = args + bytes;
                                                                let ghost s_mid = *self;
                                                                self.write(
                                                                    Instruction::Push {
                                                                        src: Source::Register(
                                                                            Register {
                                                                                name:
                                                                                    RegisterName::A,
                                                                                size: single,
                                                                            },
                                                                        ),
                                                                    },
                                                                );
                                                                proof {
                                                                    lemma_emit_trans(
                                                                        c_entry,
                                                                        s_mid,
                                                                        *self,
                                                                        ex + sub.instrs,
                                                                        ey + sub.strs,
                                                                        ez + sub.exts,
                                                                        seq![
                                                                            InstrView::Push {
                                                                                src:
                                                                                    SrcView::Register(
                                                                                    Register {
                                                                                        name:
                                                                                            RegisterName::A,
                                                                                        size:
                                                                                            single,
                                                                                    },
                                                                                ),
                                                                            },
                                                                        ],
                                                                        Seq::<Seq<char>>::empty(),
                                                                        Seq::<Seq<char>>::empty(),
                                                                    );
                                                                    let ex0 = ex;
                                                                    let ey0 = ey;
                                                                    let ez0 = ez;
                                                                    let p = InstrView::Push {
                                                                        src: SrcView::Register(
                                                                            Register {
                                                                                name:
                                                                                    RegisterName::A,
                                                                                size: single,
                                                                            },
                                                                        ),
                                                                    };
                                                                    ex = ex + sub.instrs.push(p);
                                                                    ey = ey + sub.strs;
                                                                    ez = ez + sub.exts;
                                                                    let rec_next = sp_call_args(
                                                                        fname0,
                                                                        pool_pre + sub.strs.len(),
                                                                        rem_pre.drop_last(),
                                                                    );
                                                                    assert(ex0 + (sub.instrs.push(
                                                                        p,
                                                                    ) + rec_next.instrs) =~= ex
                                                                        + rec_next.instrs);
                                                                    assert(ex0 + sub.instrs + seq![
                                                                        p,
                                                                    ] =~= ex0 + sub.instrs.push(
                                                                        p,
                                                                    ));
                                                                    assert(ey0 + (sub.strs
                                                                        + rec_next.strs) =~= ey
                                                                        + rec_next.strs);
                                                                    assert(ez0 + (sub.exts
                                                                        + rec_next.exts) =~= ez
                                                                        + rec_next.exts);
                                                                }
                                                            },
                                                        }
                                                    },
                                                }
                                            },
                                        }
                                    },
                                }
                            }
                            proof {
                                assert(nodes_view(sexprs@) =~= Seq::<NodeView>::empty());
                            }
                            let ghost s_call = *self;
                            self.write(Instruction::Call { func: word });
                            let ghost s_add = *self;
                            self.write(
                                Instruction::Add {
                                    dest: Destination::Register(
                                        Register {
                                            name: RegisterName::SP,
                                            size: RegisterSize::S32,
                                        },
                                    ),
                                    src: Source::Amount(args),
                                },
                            );
                            proof {
                                lemma_emit_trans(
                                    c_entry,
                                    s_call,
                                    s_add,
                                    ex,
                                    ey,
                                    ez,
                                    seq![InstrView::Call { func: word@ }],
                                    Seq::<Seq<char>>::empty(),
                                    Seq::<Seq<char>>::empty(),
                                );
                                lemma_emit_trans(
                                    c_entry,
                                    s_add,
                                    *self,
                                    ex + seq![InstrView::Call { func: word@ }],
                                    ey + Seq::<Seq<char>>::empty(),
                                    ez + Seq::<Seq<char>>::empty(),
                                    seq![
                                        InstrView::Add {
                                            dest: Destination::Register(
                                                Register {
                                                    name: RegisterName::SP,
                                                    size: RegisterSize::S32,
                                                },
                                            ),
                                            src: SrcView::Amount(args),
                                        },
                                    ],
                                    Seq::<Seq<char>>::empty(),
                                    Seq::<Seq<char>>::empty(),
                                );
                                assert(em.instrs =~= ex + seq![
                                    InstrView::Call { func: word@ },
                                    InstrView::Add {
                                        dest: Destination::Register(
                                            Register {
                                                name: RegisterName::SP,
                                                size: RegisterSize::S32,
                                            },
                                        ),
                                        src: SrcView::Amount(args),
                                    },
                                ]);
                                assert(ex + seq![InstrView::Call { func: word@ }] + seq![
                                    InstrView::Add {
                                        dest: Destination::Register(
                                            Register {
                                                name: RegisterName::SP,
                                                size: RegisterSize::S32,
                                            },
                                        ),
                                        src: SrcView::Amount(args),
                                    },
                                ] =~= em.instrs);
                                assert(ey + Seq::<Seq<char>>::empty() + Seq::<Seq<char>>::empty()
                                    =~= ey);
                                assert(ez + Seq::<Seq<char>>::empty() + Seq::<Seq<char>>::empty()
                                    =~= ez);
                            }
                            Ok(Type::NoneType)
                        }
                    },
                    _ => Err(Located { value: CompileError::InvalidHead, pos: head_pos }),
                }
            },
            SExpr::Word(w) => {
                proof {
                    lemma_emit_refl(c_entry);
                }
                Err(Located { value: CompileError::NotFound(w), pos })
            },
            SExpr::Int(v) => {
                self.write(
                    Instruction::Mov {
                        dest: Destination::Register(
                            Register { name: RegisterName::A, size: RegisterSize::S32 },
                        ),
                        src: Source::Int(v),
                    },
                );
                proof {
                    assert(Seq::<Seq<char>>::empty() + Seq::<Seq<char>>::empty()
                        =~= Seq::<Seq<char>>::empty());
                }
                Ok(Type::Int(IntType::S32))
            },
            SExpr::Float(_) => {
                proof {
                    lemma_emit_refl(c_entry);
                }
                Err(
                    Located {
                        value: CompileError::InvalidType(Type::Float(FloatType::S32)),
                        pos,
                    },
                )
            },
            SExpr::Str(string) => {
                let ghost sv = string@;
                let len = string.as_str().len();
                proof {
                    assert(len == sbytes(sv));
                }
                let size = len + 1;
                let constant = self.new_string(string);
                let ghost s1 = *self;
                self.write(Instruction::Push { src: Source::Name(constant) });
                proof {
                    lemma_emit_trans(
                        c_entry,
                        s1,
                        *self,
                        Seq::<InstrView>::empty(),
                        seq![sv],
                        Seq::<Seq<char>>::empty(),
                        seq![InstrView::Push { src: SrcView::Name(const_name(fname0, pool0)) }],
                        Seq::<Seq<char>>::empty(),
                        Seq::<Seq<char>>::empty(),
                    );
                    assert(Seq::<InstrView>::empty() + seq![
                        InstrView::Push { src: SrcView::Name(const_name(fname0, pool0)) },
                    ] =~= seq![InstrView::Push { src: SrcView::Name(const_name(fname0, pool0)) }]);
                    assert(seq![sv] + Seq::<Seq<char>>::empty() =~= seq![sv]);
                    assert(Seq::<Seq<char>>::empty() + Seq::<Seq<char>>::empty() =~= Seq::<
                        Seq<char>,
                    >::empty());
                }
                Ok(
                    Type::Array {
                        typ: Box::new(Type::UInt(IntType::S8)),
                        size: Some(size),
                    },
                )
            },
        }
    }
}


/// The loop relation while top-level nodes are compiled in order.
pub open spec fn seq_loop_inv(
    fname: Seq<char>,
    pool0: nat,
    em_total: Emit,
    ex: Seq<InstrView>,
    ey: Seq<Seq<char>>,
    ez: Seq<Seq<char>>,
    rem: Seq<NodeView>,
) -> bool {
    let rec = sp_compile_seq(fname, pool0 + ey.len(), rem);
    &&& em_total.instrs == ex + rec.instrs
    &&& em_total.strs == ey + rec.strs
    &&& em_total.exts == ez + rec.exts
    &&& em_total.res == rec.res
}

impl Compiler {
    /// Compiles a whole program into an implicit `main` frame: prologue,
    /// each top-level node in order, then the epilogue; the finished
    /// function moves into the program. On failure the partial frame stays
    /// on the stack and the error is returned.
    #[verifier::loop_isolation(false)]
    #[verifier::rlimit(100)]
    pub fn compile_program(&mut self, program: Vec<Located<SExpr>>) -> (r: Result<
        Type,
        Located<CompileError>,
    >)
        requires
            forall|i: int|
                0 <= i < program@.len() ==> node_budget(
                    node_view(#[trigger] program@[i]),
                ) <= usize::MAX,
        ensures
            ({
                let em = sp_compile_seq("main"@, 0, nodes_view(program@));
                &&& (em.res matches Ok(t) ==> {
                    &&& r == Ok::<Type, Located<CompileError>>(Type::NoneType)
                    &&& final(self).frames@ == old(self).frames@
                    &&& program_view(final(self).program).externs == program_view(
                        old(self).program,
                    ).externs + em.exts
                    &&& final(self).program.functions@.len() == old(
                        self,
                    ).program.functions@.len() + 1
                    &&& final(self).program.functions@.drop_last() == old(
                        self,
                    ).program.functions@
                    &&& ({
                        let f = final(self).program.functions@.last();
                        &&& f.name@ == "main"@
                        &&& f.registers == 0
                        &&& f.return_type == Type::NoneType
                        &&& function_view(f).body == prologue() + em.instrs + epilogue(0)
                        &&& function_view(f).strings == em.strs
                    })
                })
                &&& (em.res matches Err(le) ==> {
                    &&& (r matches Err(e) && loc_err_view(e) == le)
                    &&& final(self).frames@.len() == old(self).frames@.len() + 1
                    &&& final(self).frames@.drop_last() == old(self).frames@
                    &&& final(self).program.functions == old(self).program.functions
                    &&& program_view(final(self).program).externs == program_view(
                        old(self).program,
                    ).externs + em.exts
                    &&& ({
                        let fr = final(self).frames@.last();
                        &&& fr.function.name@ == "main"@
                        &&& function_view(fr.function).body == prologue() + em.instrs
                        &&& function_view(fr.function).strings == em.strs
                    })
                })
            }),
    {
        let mut program = program;
        let ghost all0 = nodes_view(program@);
        let ghost em = sp_compile_seq("main"@, 0, all0);
        self.push_frame("main".to_owned());
        let ghost c_base = *self;
        let ghost mut ex: Seq<InstrView> = Seq::empty();
        let ghost mut ey: Seq<Seq<char>> = Seq::empty();
        let ghost mut ez: Seq<Seq<char>> = Seq::empty();
        proof {
            lemma_emit_refl(c_base);
            assert(ex + em.instrs =~= em.instrs);
            assert(ey + em.strs =~= em.strs);
            assert(ez + em.exts =~= em.exts);
            assert(function_view(c_base.frames@.last().function).strings =~= Seq::<
                Seq<char>,
            >::empty());
        }
        while program.len() > 0
            invariant
                emit_applied(c_base, *self, ex, ey, ez),
                seq_loop_inv("main"@, 0, em, ex, ey, ez, nodes_view(program@)),
                forall|i: int|
                    0 <= i < program@.len() ==> node_budget(
                        node_view(#[trigger] program@[i]),
                    ) <= usize::MAX,
            decreases program@.len(),
        {
            let ghost rem_pre = nodes_view(program@);
            let ghost pool_pre = 0 + ey.len();
            let ghost vec_pre = program@;
            let node = program.remove(0);
            proof {
                lemma_nodes_view(vec_pre);
                lemma_nodes_view(program@);
                assert(node == vec_pre[0]);
                assert(node_view(node) == rem_pre[0]);
                assert(nodes_view(program@) =~= rem_pre.drop_first());
            }
            let ghost sub = sp_compile("main"@, pool_pre, node_view(node));
            let ghost s_pre = *self;
            match self.compile(node) {
                Err(e) => {
                    proof {
                        lemma_emit_trans(
                            c_base,
                            s_pre,
                            *self,
                            ex,
                            ey,
                            ez,
                            sub.instrs,
                            sub.strs,
                            sub.exts,
                        );
                        assert(function_view(self.frames@.last().function).body =~= prologue()
                            + (ex + sub.instrs));
                        assert(prologue() + (ex + sub.instrs) =~= prologue() + em.instrs);
                        assert(function_view(self.frames@.last().function).strings =~= em.strs);
                        assert(self.frames@.drop_last() =~= old(self).frames@);
                    }
                    return Err(e);
                },
                Ok(_) => {
                    proof {
                        lemma_emit_trans(
                            c_base,
                            s_pre,
                            *self,
                            ex,
                            ey,
                            ez,
                            sub.instrs,
                            sub.strs,
                            sub.exts,
                        );
                        let ex0 = ex;
                        let ey0 = ey;
                        let ez0 = ez;
                        ex = ex + sub.instrs;
                        ey = ey + sub.strs;
                        ez = ez + sub.exts;
                        let rec_next = sp_compile_seq(
                            "main"@,
                            pool_pre + sub.strs.len(),
                            rem_pre.drop_first(),
                        );
                        assert(ex0 + (sub.instrs + rec_next.instrs) =~= ex + rec_next.instrs);
                        assert(ey0 + (sub.strs + rec_next.strs) =~= ey + rec_next.strs);
                        assert(ez0 + (sub.exts + rec_next.exts) =~= ez + rec_next.exts);
                    }
                },
            }
        }
        proof {
            assert(nodes_view(program@) =~= Seq::<NodeView>::empty());
        }
        self.pop_frame();
        proof {
            assert(final(self).frames@ =~= old(self).frames@);
            assert(final(self).program.functions@.drop_last() =~= old(self).program.functions@);
            assert(function_view(final(self).program.functions@.last()).body =~= prologue()
                + em.instrs + epilogue(0));
            assert(function_view(final(self).program.functions@.last()).strings =~= em.strs);
            assert(program_view(final(self).program).externs =~= program_view(
                old(self).program,
            ).externs + em.exts);
        }
        Ok(Type::default())
    }
}

/// Compiles a whole parsed program into a target program with one `main`
/// function, or returns the first positioned failure.
pub fn compile_program(program: Vec<Located<SExpr>>) -> (r: Result<Program, Located<CompileError>>)
    requires
        forall|i: int|
            0 <= i < program@.len() ==> node_budget(node_view(#[trigger] program@[i]))
                <= usize::MAX,
    ensures
        ({
            let em = sp_compile_seq("main"@, 0, nodes_view(program@));
            &&& (em.res matches Ok(t) ==> (r matches Ok(p) && {
                &&& program_view(p).externs == em.exts
                &&& p.functions@.len() == 1
                &&& ({
                    let f = p.functions@[0];
                    &&& f.name@ == "main"@
                    &&& f.registers == 0
                    &&& f.return_type == Type::NoneType
                    &&& function_view(f).body == prologue() + em.instrs + epilogue(0)
                    &&& function_view(f).strings == em.strs
                })
            }))
            &&& (em.res matches Err(le) ==> (r matches Err(e) && loc_err_view(e) == le))
        }),
{
    let mut compiler = Compiler::default();
    proof {
        assert(program_view(compiler.program).externs =~= Seq::<Seq<char>>::empty());
    }
    match compiler.compile_program(program) {
        Err(e) => Err(e),
        Ok(_) => {
            proof {
                assert(compiler.program.functions@.last() == compiler.program.functions@[0]);
                assert(Seq::<Seq<char>>::empty() + sp_compile_seq(
                    "main"@,
                    0,
                    nodes_view(program@),
                ).exts =~= sp_compile_seq("main"@, 0, nodes_view(program@)).exts);
            }
            Ok(compiler.program)
        },
    }
}


/// The message text of a compile failure.
pub open spec fn cerr_text(e: CErrView) -> Seq<char> {
    match e {
        CErrView::NotFound(w) => "\""@ + w + "\" not found"@,
        CErrView::ExpectedArgs(n) => "expected "@ + dec_str(n as nat) + " arguments"@,
        CErrView::InvalidHead => "invalid head"@,
        CErrView::InvalidType(t) => "invalid type "@ + crate::typ::type_text(t),
        CErrView::InvalidTypeExpected { expected, got } => "expected "@ + crate::typ::type_text(
            expected,
        ) + ", got "@ + crate::typ::type_text(got),
        CErrView::UnknownSize => "unknown size"@,
    }
}

/// The rendered diagnostic of a positioned failure: one-based line and
/// column, then the message.
pub open spec fn located_cerr_text(le: LocErr) -> Seq<char> {
    dec_str((le.pos.ln + 1) as nat) + ":"@ + dec_str((le.pos.col + 1) as nat) + ": "@ + cerr_text(
        le.value,
    )
}

impl CompileError {
    /// Renders the failure's message.
    pub fn render(&self) -> (out: String)
        ensures
            out@ == cerr_text(cerr_view(*self)),
    {
        let mut out = String::new();
        match self {
            CompileError::NotFound(w) => {
                out.append("\"");
                out.append(w.as_str());
                out.append("\" not found");
            },
            CompileError::ExpectedArgs(n) => {
                out.append("expected ");
                push_dec_usize(&mut out, *n);
                out.append(" arguments");
            },
            CompileError::InvalidHead => {
                out.append("invalid head");
            },
            CompileError::InvalidType(t) => {
                out.append("invalid type ");
                let r = t.render();
                out.append(r.as_str());
            },
            CompileError::InvalidTypeExpected { expected, got } => {
                out.append("expected ");
                let r1 = expected.render();
                out.append(r1.as_str());
                out.append(", got ");
                let r2 = got.render();
                out.append(r2.as_str());
            },
            CompileError::UnknownSize => {
                out.append("unknown size");
            },
        }
        proof {
            assert(out@ =~= cerr_text(cerr_view(*self)));
        }
        out
    }
}

impl Located<CompileError> {
    /// Renders the diagnostic line: one-based position, then the message.
    pub fn render(&self) -> (out: String)
        requires
            self.pos.ln < usize::MAX,
            self.pos.col < usize::MAX,
        ensures
            out@ == located_cerr_text(loc_err_view(*self)),
    {
        let mut out = String::new();
        push_dec_usize(&mut out, self.pos.ln + 1);
        out.append(":");
        push_dec_usize(&mut out, self.pos.col + 1);
        out.append(": ");
        let r = self.value.render();
        out.append(r.as_str());
        proof {
            assert(out@ =~= located_cerr_text(loc_err_view(*self)));
        }
        out
    }
}

} // verus!
