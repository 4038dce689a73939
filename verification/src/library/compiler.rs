//! The compiler: a validated AST lowered to linear bytecode with a
//! deduplicated constant pool and a named opcode table.
//!
//! Validation rejects exactly the programs [`program_ok`] rejects:
//! an `import` after another statement, an unknown module, dot
//! notation on anything but an imported module name, and a duplicate
//! field in a struct literal.  `a |> b` is lowered as the call `b(a)`
//! (with `a` prepended when `b` is already a call).  Every emitted
//! instruction's opcode is in the table, and every constant a
//! `load_const` names exists: see [`bp_wf`].

use crate::library::ast::{ASTNode, BinaryOp, LiteralValue, MatchArm, Program, UnaryOp};
use crate::library::lexer::TokenValue;
use crate::library::number::Rational;
use vstd::prelude::*;
use vstd::string::StringExecFns;

verus! {

pub const OP_LOAD_CONST: usize = 0;

pub const OP_LOAD_LOCAL: usize = 1;

pub const OP_STORE_LOCAL: usize = 2;

pub const OP_LOAD_MODULE: usize = 3;

pub const OP_MODULE_MEMBER: usize = 4;

pub const OP_ADD: usize = 5;

pub const OP_SUB: usize = 6;

pub const OP_MUL: usize = 7;

pub const OP_DIV: usize = 8;

pub const OP_NEG: usize = 9;

pub const OP_NOT: usize = 10;

pub const OP_EQUAL: usize = 11;

pub const OP_NOT_EQUAL: usize = 12;

pub const OP_LESS: usize = 13;

pub const OP_GREATER: usize = 14;

pub const OP_LESS_EQUAL: usize = 15;

pub const OP_GREATER_EQUAL: usize = 16;

pub const OP_MAKE_ARRAY: usize = 17;

pub const OP_MAKE_MAP: usize = 18;

pub const OP_INDEX_ACCESS: usize = 19;

pub const OP_UPDATE: usize = 20;

pub const OP_CALL: usize = 21;

pub const OP_RETURN: usize = 22;

pub const OP_JUMP: usize = 23;

pub const OP_JUMP_IF_FALSE: usize = 24;

pub const OP_MATCH_JUMP: usize = 25;

pub const OP_POP: usize = 26;

pub const OP_LOAD_NIL: usize = 27;

pub const OP_HALT: usize = 28;

pub const OP_PUSH_SCOPE: usize = 29;

pub const OP_POP_SCOPE: usize = 30;

/// How many opcodes the instruction set has.
pub const N_OPS: usize = 31;

/// The mnemonic of each opcode.
pub open spec fn opcode_name(k: int) -> Seq<char> {
    if k == 0 {
        "load_const"@
    } else if k == 1 {
        "load_local"@
    } else if k == 2 {
        "store_local"@
    } else if k == 3 {
        "load_module"@
    } else if k == 4 {
        "module_member"@
    } else if k == 5 {
        "add"@
    } else if k == 6 {
        "sub"@
    } else if k == 7 {
        "mul"@
    } else if k == 8 {
        "div"@
    } else if k == 9 {
        "neg"@
    } else if k == 10 {
        "not"@
    } else if k == 11 {
        "equal"@
    } else if k == 12 {
        "not_equal"@
    } else if k == 13 {
        "less"@
    } else if k == 14 {
        "greater"@
    } else if k == 15 {
        "less_equal"@
    } else if k == 16 {
        "greater_equal"@
    } else if k == 17 {
        "make_array"@
    } else if k == 18 {
        "make_map"@
    } else if k == 19 {
        "index_access"@
    } else if k == 20 {
        "update"@
    } else if k == 21 {
        "call"@
    } else if k == 22 {
        "return"@
    } else if k == 23 {
        "jump"@
    } else if k == 24 {
        "jump_if_false"@
    } else if k == 25 {
        "match_jump"@
    } else if k == 26 {
        "pop"@
    } else if k == 27 {
        "load_nil"@
    } else if k == 28 {
        "halt"@
    } else if k == 29 {
        "push_scope"@
    } else {
        "pop_scope"@
    }
}

/// The mnemonic of one opcode.
fn name_of_opcode(k: usize) -> (s: String)
    requires
        k < N_OPS,
    ensures
        s@ == opcode_name(k as int),
{
    match k {
        0 => String::from_str("load_const"),
        1 => String::from_str("load_local"),
        2 => String::from_str("store_local"),
        3 => String::from_str("load_module"),
        4 => String::from_str("module_member"),
        5 => String::from_str("add"),
        6 => String::from_str("sub"),
        7 => String::from_str("mul"),
        8 => String::from_str("div"),
        9 => String::from_str("neg"),
        10 => String::from_str("not"),
        11 => String::from_str("equal"),
        12 => String::from_str("not_equal"),
        13 => String::from_str("less"),
        14 => String::from_str("greater"),
        15 => String::from_str("less_equal"),
        16 => String::from_str("greater_equal"),
        17 => String::from_str("make_array"),
        18 => String::from_str("make_map"),
        19 => String::from_str("index_access"),
        20 => String::from_str("update"),
        21 => String::from_str("call"),
        22 => String::from_str("return"),
        23 => String::from_str("jump"),
        24 => String::from_str("jump_if_false"),
        25 => String::from_str("match_jump"),
        26 => String::from_str("pop"),
        27 => String::from_str("load_nil"),
        28 => String::from_str("halt"),
        29 => String::from_str("push_scope"),
        _ => String::from_str("pop_scope"),
    }
}

/// The value of an interned constant.
#[derive(Debug, Clone, PartialEq)]
pub enum ConstantValue {
    Number(Rational),
    String(String),
    Bool(bool),
}

/// One pool entry: its id and its value.
#[derive(Debug, Clone, PartialEq)]
pub struct Constant {
    pub id: usize,
    pub value: ConstantValue,
}

/// Two constant values denote the same literal.
pub open spec fn cv_eq(a: ConstantValue, b: ConstantValue) -> bool {
    match (a, b) {
        (ConstantValue::Number(x), ConstantValue::Number(y)) => x == y,
        (ConstantValue::String(x), ConstantValue::String(y)) => x@ == y@,
        (ConstantValue::Bool(x), ConstantValue::Bool(y)) => x == y,
        _ => false,
    }
}

/// One bytecode instruction: an opcode id, its operands, and the
/// source line it came from.
#[derive(Debug, Clone, PartialEq)]
pub struct Instruction {
    pub opcode_id: usize,
    pub operands: Vec<usize>,
    pub line: usize,
}

/// One compiled pattern of a match arm.
#[derive(Debug, Clone, PartialEq)]
pub enum PatternDesc {
    Wildcard,
    Lit(usize),
    Fields(Vec<usize>),
}

/// One compiled match arm: its patterns and where its body starts.
#[derive(Debug, Clone, PartialEq)]
pub struct ArmDesc {
    pub patterns: Vec<PatternDesc>,
    pub target: usize,
}

/// The compiled arms of one `match`, in source order.
#[derive(Debug, Clone, PartialEq)]
pub struct MatchTable {
    pub arms: Vec<ArmDesc>,
}

/// One declared function: its name, parameters, and entry point.
#[derive(Debug, Clone, PartialEq)]
pub struct FuncEntry {
    pub name: String,
    pub params: Vec<String>,
    pub entry: usize,
}

/// A compiled program.
#[derive(Debug, Clone, PartialEq)]
pub struct BytecodeProgram {
    pub constants: Vec<Constant>,
    pub opcode_table: Vec<(String, usize)>,
    pub instructions: Vec<Instruction>,
    pub match_tables: Vec<MatchTable>,
    pub functions: Vec<FuncEntry>,
    pub modules: Vec<String>,
}

/// The constant value carries exactly the literal's payload.
pub open spec fn lit_cv(lv: LiteralValue, cv: ConstantValue) -> bool {
    match lv {
        LiteralValue::Number(q) => cv matches ConstantValue::Number(q2) && q == q2,
        LiteralValue::String(s) => cv matches ConstantValue::String(s2) && s@ == s2@,
        LiteralValue::Boolean(b) => cv == ConstantValue::Bool(b),
    }
}

/// The instruction is well formed against the pool and table sizes:
/// its opcode exists, and an operand that names a constant or a match
/// table stays inside it.
pub open spec fn instr_wf(ins: Instruction, nc: int, nt: int) -> bool {
    &&& ins.opcode_id < N_OPS
    &&& ((ins.opcode_id == OP_LOAD_CONST || ins.opcode_id == OP_LOAD_LOCAL || ins.opcode_id
        == OP_STORE_LOCAL || ins.opcode_id == OP_LOAD_MODULE || ins.opcode_id == OP_MODULE_MEMBER)
        ==> ins.operands@.len() == 1 && ins.operands@[0] < nc)
    &&& (ins.opcode_id == OP_MATCH_JUMP ==> ins.operands@.len() == 1 && ins.operands@[0] < nt)
}

/// The pattern descriptor names only existing constants.
pub open spec fn pattern_desc_wf(p: PatternDesc, nc: int) -> bool {
    match p {
        PatternDesc::Wildcard => true,
        PatternDesc::Lit(id) => id < nc,
        PatternDesc::Fields(ids) => forall|i: int| 0 <= i < ids@.len() ==> (#[trigger] ids@[i]) < nc,
    }
}

/// The whole bytecode program is well formed: the opcode table is the
/// canonical one, constant ids are their positions and no literal is
/// pooled twice, and every instruction and match arm is well formed.
pub open spec fn bp_wf(bp: BytecodeProgram) -> bool {
    &&& bp.opcode_table@.len() == N_OPS
    &&& forall|k: int|
        0 <= k < N_OPS ==> (#[trigger] bp.opcode_table@[k]).1 == k && bp.opcode_table@[k].0@
            == opcode_name(k)
    &&& forall|i: int| 0 <= i < bp.constants@.len() ==> (#[trigger] bp.constants@[i]).id == i
    &&& forall|i: int, j: int|
        0 <= i < j < bp.constants@.len() ==> !cv_eq(bp.constants@[i].value, bp.constants@[j].value)
    &&& forall|i: int|
        0 <= i < bp.instructions@.len() ==> instr_wf(
            #[trigger] bp.instructions@[i],
            bp.constants@.len() as int,
            bp.match_tables@.len() as int,
        )
    &&& forall|t: int, a: int, p: int|
        0 <= t < bp.match_tables@.len() && 0 <= a < bp.match_tables@[t].arms@.len() && 0 <= p
            < bp.match_tables@[t].arms@[a].patterns@.len() ==> pattern_desc_wf(
            #[trigger] bp.match_tables@[t].arms@[a].patterns@[p],
            bp.constants@.len() as int,
        )
}

impl BytecodeProgram {
    /// The id registered for a mnemonic, when the table has it.
    #[verifier::loop_isolation(false)]
    pub fn get_opcode(&self, name: &str) -> (r: Option<usize>)
        ensures
            match r {
                Some(id) => exists|k: int|
                    0 <= k < self.opcode_table@.len() && (#[trigger] self.opcode_table@[k]).0@
                        == name@ && self.opcode_table@[k].1 == id,
                None => forall|k: int|
                    0 <= k < self.opcode_table@.len() ==> (#[trigger] self.opcode_table@[k]).0@
                        != name@,
            },
    {
        let wanted = String::from_str(name);
        let mut k: usize = 0;
        while k < self.opcode_table.len()
            invariant
                0 <= k <= self.opcode_table@.len(),
                wanted@ == name@,
                forall|j: int|
                    0 <= j < k ==> (#[trigger] self.opcode_table@[j]).0@ != name@,
            decreases self.opcode_table@.len() - k,
        {
            if self.opcode_table[k].0 == wanted {
                return Some(self.opcode_table[k].1);
            }
            k = k + 1;
        }
        None
    }
}

/// The module registry: what `import` may name.
pub open spec fn known_module(p: Seq<char>) -> bool {
    p == "IO"@ || p == "Math"@ || p == "String"@
}

/// No `import` stands after a statement of another kind.
pub open spec fn imports_first(nodes: Seq<ASTNode>) -> bool {
    forall|i: int, j: int|
        0 <= i < j < nodes.len() && (#[trigger] nodes[j]) is Import ==> (#[trigger] nodes[i])
            is Import
}

/// The names the top-level imports bind, in order.
pub open spec fn module_views(nodes: Seq<ASTNode>) -> Seq<Seq<char>>
    decreases nodes.len(),
{
    if nodes.len() == 0 {
        Seq::empty()
    } else {
        module_views(nodes.drop_last()) + (match nodes.last() {
            ASTNode::Import { path } => seq![path@],
            _ => Seq::empty(),
        })
    }
}

/// No two fields of a struct literal share a name.
pub open spec fn no_dup_fields(fields: Seq<(String, ASTNode)>) -> bool {
    forall|i: int, j: int| 0 <= i < j < fields.len() ==> (#[trigger] fields[i]).0@ != (
    #[trigger] fields[j]).0@
}

/// The node holds no semantic fault: imports name known modules, dot
/// notation reaches only imported module names, and struct literals
/// repeat no field.
pub open spec fn node_ok(n: ASTNode, mods: Seq<Seq<char>>) -> bool
    decreases n,
{
    match n {
        ASTNode::Literal { value } => true,
        ASTNode::Identifier { name } => true,
        ASTNode::Binary { op, left, right } => node_ok(*left, mods) && node_ok(*right, mods),
        ASTNode::Unary { op, right } => node_ok(*right, mods),
        ASTNode::Call { callee, args } => node_ok(*callee, mods) && nodes_ok(args@, mods),
        ASTNode::Pipeline { left, right } => node_ok(*left, mods) && node_ok(*right, mods),
        ASTNode::Update { left, right } => node_ok(*left, mods) && node_ok(*right, mods),
        ASTNode::Array { elements } => nodes_ok(elements@, mods),
        ASTNode::StructLiteral { fields } => no_dup_fields(fields@) && fields_ok(fields@, mods),
        ASTNode::StructDeconstructPattern { field_names } => true,
        ASTNode::WildcardPattern => true,
        ASTNode::LetStatement { name, initializer } => node_ok(*initializer, mods),
        ASTNode::FuncDeclaration { name, params, body } => nodes_ok(body@, mods),
        ASTNode::IfExpression { condition, then_branch, else_branch } => node_ok(*condition, mods)
            && nodes_ok(then_branch@, mods) && (match else_branch {
            Some(eb) => nodes_ok(eb@, mods),
            None => true,
        }),
        ASTNode::MatchStatement { value, arms } => node_ok(*value, mods) && arms_ok(arms@, mods),
        ASTNode::EnumDeclaration { name, variants } => true,
        ASTNode::Import { path } => known_module(path@),
        ASTNode::IndexAccess { target, index } => node_ok(*target, mods) && node_ok(*index, mods),
        ASTNode::PropertyAccess { target, member } => match *target {
            ASTNode::Identifier { name } => mods.contains(name@),
            _ => false,
        },
        ASTNode::ExpressionStatement { expression } => node_ok(*expression, mods),
    }
}

/// Every node of the list is ok.
pub open spec fn nodes_ok(s: Seq<ASTNode>, mods: Seq<Seq<char>>) -> bool
    decreases s,
{
    if s.len() == 0 {
        true
    } else {
        node_ok(s[0], mods) && nodes_ok(s.drop_first(), mods)
    }
}

/// Every field value of the list is ok.
pub open spec fn fields_ok(s: Seq<(String, ASTNode)>, mods: Seq<Seq<char>>) -> bool
    decreases s,
{
    if s.len() == 0 {
        true
    } else {
        node_ok(s[0].1, mods) && fields_ok(s.drop_first(), mods)
    }
}

/// Every pattern and body of the arm list is ok.
pub open spec fn arms_ok(s: Seq<MatchArm>, mods: Seq<Seq<char>>) -> bool
    decreases s,
{
    if s.len() == 0 {
        true
    } else {
        nodes_ok(s[0].patterns@, mods) && node_ok(*s[0].body, mods) && arms_ok(
            s.drop_first(),
            mods,
        )
    }
}

/// The program compiles: imports come first, and every node is ok
/// against the names those imports bind.
pub open spec fn program_ok(prog: Program) -> bool {
    imports_first(prog.nodes@) && nodes_ok(prog.nodes@, module_views(prog.nodes@))
}

proof fn lemma_nodes_ok_index(s: Seq<ASTNode>, mods: Seq<Seq<char>>)
    ensures
        nodes_ok(s, mods) <==> (forall|i: int| 0 <= i < s.len() ==> node_ok(#[trigger] s[i], mods)),
    decreases s,
{
    if s.len() > 0 {
        lemma_nodes_ok_index(s.drop_first(), mods);
        assert forall|i: int| 0 <= i < s.len() && nodes_ok(s, mods) implies node_ok(
            #[trigger] s[i],
            mods,
        ) by {
            if i > 0 {
                assert(s.drop_first()[i - 1] == s[i]);
            }
        }
        if (forall|i: int| 0 <= i < s.len() ==> node_ok(#[trigger] s[i], mods)) {
            assert forall|i: int| 0 <= i < s.drop_first().len() implies node_ok(
                #[trigger] s.drop_first()[i],
                mods,
            ) by {
                assert(s.drop_first()[i] == s[i + 1]);
            }
        }
    }
}

proof fn lemma_fields_ok_index(s: Seq<(String, ASTNode)>, mods: Seq<Seq<char>>)
    ensures
        fields_ok(s, mods) <==> (forall|i: int|
            0 <= i < s.len() ==> node_ok((#[trigger] s[i]).1, mods)),
    decreases s,
{
    if s.len() > 0 {
        lemma_fields_ok_index(s.drop_first(), mods);
        assert forall|i: int| 0 <= i < s.len() && fields_ok(s, mods) implies node_ok(
            (#[trigger] s[i]).1,
            mods,
        ) by {
            if i > 0 {
                assert(s.drop_first()[i - 1] == s[i]);
            }
        }
        if (forall|i: int| 0 <= i < s.len() ==> node_ok((#[trigger] s[i]).1, mods)) {
            assert forall|i: int| 0 <= i < s.drop_first().len() implies node_ok(
                (#[trigger] s.drop_first()[i]).1,
                mods,
            ) by {
                assert(s.drop_first()[i] == s[i + 1]);
            }
        }
    }
}

proof fn lemma_arms_ok_index(s: Seq<MatchArm>, mods: Seq<Seq<char>>)
    ensures
        arms_ok(s, mods) <==> (forall|i: int|
            0 <= i < s.len() ==> nodes_ok((#[trigger] s[i]).patterns@, mods) && node_ok(
                *s[i].body,
                mods,
            )),
    decreases s,
{
    if s.len() > 0 {
        lemma_arms_ok_index(s.drop_first(), mods);
        assert forall|i: int| 0 <= i < s.len() && arms_ok(s, mods) implies nodes_ok(
            (#[trigger] s[i]).patterns@,
            mods,
        ) && node_ok(*s[i].body, mods) by {
            if i > 0 {
                assert(s.drop_first()[i - 1] == s[i]);
            }
        }
        if (forall|i: int|
            0 <= i < s.len() ==> nodes_ok((#[trigger] s[i]).patterns@, mods) && node_ok(
                *s[i].body,
                mods,
            )) {
            assert forall|i: int| 0 <= i < s.drop_first().len() implies nodes_ok(
                (#[trigger] s.drop_first()[i]).patterns@,
                mods,
            ) && node_ok(*s.drop_first()[i].body, mods) by {
                assert(s.drop_first()[i] == s[i + 1]);
            }
        }
    }
}

/// Compare a module-name list entry with a name.
#[verifier::loop_isolation(false)]
fn contains_name(mods: &Vec<String>, name: &String) -> (r: bool)
    ensures
        r == views_of(mods@).contains(name@),
{
    let mut i: usize = 0;
    while i < mods.len()
        invariant
            0 <= i <= mods@.len(),
            forall|j: int| 0 <= j < i ==> views_of(mods@)[j] != name@,
        decreases mods@.len() - i,
    {
        proof {
            assert(views_of(mods@)[i as int] == mods@[i as int]@);
        }
        if mods[i] == *name {
            proof {
                assert(views_of(mods@)[i as int] == name@);
            }
            return true;
        }
        i = i + 1;
    }
    proof {
        assert forall|j: int| 0 <= j < views_of(mods@).len() implies views_of(mods@)[j]
            != name@ by {
            assert(views_of(mods@)[j] == mods@[j]@);
        }
    }
    false
}

/// The views of a list of strings.
pub open spec fn views_of(ms: Seq<String>) -> Seq<Seq<char>> {
    ms.map_values(|m: String| m@)
}

/// Check one node against [`node_ok`].
#[verifier::loop_isolation(false)]
fn check_node(n: &ASTNode, mods: &Vec<String>) -> (r: bool)
    ensures
        r == node_ok(*n, views_of(mods@)),
    decreases *n,
{
    match n {
        ASTNode::Literal { value } => true,
        ASTNode::Identifier { name } => true,
        ASTNode::Binary { op, left, right } => check_node(left, mods) && check_node(right, mods),
        ASTNode::Unary { op, right } => check_node(right, mods),
        ASTNode::Call { callee, args } => check_node(callee, mods) && check_nodes(args, mods),
        ASTNode::Pipeline { left, right } => check_node(left, mods) && check_node(right, mods),
        ASTNode::Update { left, right } => check_node(left, mods) && check_node(right, mods),
        ASTNode::Array { elements } => check_nodes(elements, mods),
        ASTNode::StructLiteral { fields } => {
            let mut i: usize = 0;
            while i < fields.len()
                invariant
                    0 <= i <= fields@.len(),
                    forall|a: int, b: int|
                        0 <= a < b < i ==> (#[trigger] fields@[a]).0@ != (#[trigger] fields@[b]).0@,
                decreases fields@.len() - i,
            {
                let mut j: usize = 0;
                while j < i
                    invariant
                        0 <= j <= i < fields@.len(),
                        forall|a: int|
                            0 <= a < j ==> (#[trigger] fields@[a]).0@ != fields@[i as int].0@,
                    decreases i - j,
                {
                    if fields[j].0 == fields[i].0 {
                        proof {
                            assert(fields@[j as int].0@ == fields@[i as int].0@);
                            assert(!no_dup_fields(fields@)) by {
                                if no_dup_fields(fields@) {
                                    assert((fields@[j as int]).0@ != (fields@[i as int]).0@);
                                }
                            }
                            assert(node_ok(*n, views_of(mods@)) == (no_dup_fields(fields@)
                                && fields_ok(fields@, views_of(mods@))));
                        }
                        return false;
                    }
                    j = j + 1;
                }
                i = i + 1;
            }
            check_fields(fields, mods)
        },
        ASTNode::StructDeconstructPattern { field_names } => true,
        ASTNode::WildcardPattern => true,
        ASTNode::LetStatement { name, initializer } => check_node(initializer, mods),
        ASTNode::FuncDeclaration { name, params, body } => check_nodes(body, mods),
        ASTNode::IfExpression { condition, then_branch, else_branch } => {
            if !check_node(condition, mods) {
                return false;
            }
            if !check_nodes(then_branch, mods) {
                return false;
            }
            match else_branch {
                Some(eb) => check_nodes(eb, mods),
                None => true,
            }
        },
        ASTNode::MatchStatement { value, arms } => {
            if !check_node(value, mods) {
                return false;
            }
            check_arms(arms, mods)
        },
        ASTNode::EnumDeclaration { name, variants } => true,
        ASTNode::Import { path } => {
            *path == String::from_str("IO") || *path == String::from_str("Math") || *path
                == String::from_str("String")
        },
        ASTNode::IndexAccess { target, index } => check_node(target, mods) && check_node(
            index,
            mods,
        ),
        ASTNode::PropertyAccess { target, member } => {
            match &**target {
                ASTNode::Identifier { name } => contains_name(mods, name),
                _ => false,
            }
        },
        ASTNode::ExpressionStatement { expression } => check_node(expression, mods),
    }
}

/// Check the value of one struct-literal field.
fn check_field(f: &(String, ASTNode), mods: &Vec<String>) -> (r: bool)
    ensures
        r == node_ok(f.1, views_of(mods@)),
    decreases *f,
{
    check_node(&f.1, mods)
}

/// Check every field value of a struct literal.
#[verifier::loop_isolation(false)]
fn check_fields(s: &Vec<(String, ASTNode)>, mods: &Vec<String>) -> (r: bool)
    ensures
        r == fields_ok(s@, views_of(mods@)),
    decreases s@,
{
    proof {
        lemma_fields_ok_index(s@, views_of(mods@));
    }
    let mut k: usize = 0;
    while k < s.len()
        invariant
            0 <= k <= s@.len(),
            forall|a: int| 0 <= a < k ==> node_ok((#[trigger] s@[a]).1, views_of(mods@)),
        decreases s@.len() - k,
    {
        if !check_field(&s[k], mods) {
            proof {
                lemma_fields_ok_index(s@, views_of(mods@));
            }
            return false;
        }
        k = k + 1;
    }
    proof {
        lemma_fields_ok_index(s@, views_of(mods@));
    }
    true
}

/// Check one match arm: its patterns and its body.
fn check_arm(a: &MatchArm, mods: &Vec<String>) -> (r: bool)
    ensures
        r == (nodes_ok(a.patterns@, views_of(mods@)) && node_ok(*a.body, views_of(mods@))),
    decreases *a,
{
    check_nodes(&a.patterns, mods) && check_node(&a.body, mods)
}

/// Check every arm of a match.
#[verifier::loop_isolation(false)]
fn check_arms(s: &Vec<MatchArm>, mods: &Vec<String>) -> (r: bool)
    ensures
        r == arms_ok(s@, views_of(mods@)),
    decreases s@,
{
    proof {
        lemma_arms_ok_index(s@, views_of(mods@));
    }
    let mut i: usize = 0;
    while i < s.len()
        invariant
            0 <= i <= s@.len(),
            forall|a: int|
                0 <= a < i ==> nodes_ok((#[trigger] s@[a]).patterns@, views_of(mods@)) && node_ok(
                    *s@[a].body,
                    views_of(mods@),
                ),
        decreases s@.len() - i,
    {
        if !check_arm(&s[i], mods) {
            proof {
                lemma_arms_ok_index(s@, views_of(mods@));
            }
            return false;
        }
        i = i + 1;
    }
    proof {
        lemma_arms_ok_index(s@, views_of(mods@));
    }
    true
}

/// Check every node of a list.
#[verifier::loop_isolation(false)]
fn check_nodes(s: &Vec<ASTNode>, mods: &Vec<String>) -> (r: bool)
    ensures
        r == nodes_ok(s@, views_of(mods@)),
    decreases s@,
{
    proof {
        lemma_nodes_ok_index(s@, views_of(mods@));
    }
    let mut i: usize = 0;
    while i < s.len()
        invariant
            0 <= i <= s@.len(),
            forall|a: int| 0 <= a < i ==> node_ok(#[trigger] s@[a], views_of(mods@)),
        decreases s@.len() - i,
    {
        if !check_node(&s[i], mods) {
            proof {
                lemma_nodes_ok_index(s@, views_of(mods@));
            }
            return false;
        }
        i = i + 1;
    }
    proof {
        lemma_nodes_ok_index(s@, views_of(mods@));
    }
    true
}

/// Compare two constant values as literals.
fn cv_equal(a: &ConstantValue, b: &ConstantValue) -> (r: bool)
    ensures
        r == cv_eq(*a, *b),
{
    match (a, b) {
        (ConstantValue::Number(x), ConstantValue::Number(y)) => *x == *y,
        (ConstantValue::String(x), ConstantValue::String(y)) => *x == *y,
        (ConstantValue::Bool(x), ConstantValue::Bool(y)) => *x == *y,
        _ => false,
    }
}

/// The canonical opcode table: each mnemonic beside its id.
fn build_opcode_table() -> (t: Vec<(String, usize)>)
    ensures
        t@.len() == N_OPS,
        forall|k: int| 0 <= k < N_OPS ==> (#[trigger] t@[k]).1 == k && t@[k].0@ == opcode_name(k),
{
    let mut t: Vec<(String, usize)> = Vec::new();
    let mut k: usize = 0;
    while k < N_OPS
        invariant
            0 <= k <= N_OPS,
            t@.len() == k,
            forall|j: int| 0 <= j < k ==> (#[trigger] t@[j]).1 == j && t@[j].0@ == opcode_name(j),
        decreases N_OPS - k,
    {
        t.push((name_of_opcode(k), k));
        k = k + 1;
    }
    t
}

/// The growing halves of a bytecode program while it is emitted.
struct Emitter {
    constants: Vec<Constant>,
    instructions: Vec<Instruction>,
    match_tables: Vec<MatchTable>,
    functions: Vec<FuncEntry>,
    modules: Vec<String>,
}

/// The emitter state is well formed: sequential constant ids with no
/// literal pooled twice, and every instruction and pattern in bounds.
spec fn em_wf(em: Emitter) -> bool {
    &&& forall|i: int| 0 <= i < em.constants@.len() ==> (#[trigger] em.constants@[i]).id == i
    &&& forall|i: int, j: int|
        0 <= i < j < em.constants@.len() ==> !cv_eq(em.constants@[i].value, em.constants@[j].value)
    &&& forall|i: int|
        0 <= i < em.instructions@.len() ==> instr_wf(
            #[trigger] em.instructions@[i],
            em.constants@.len() as int,
            em.match_tables@.len() as int,
        )
    &&& forall|t: int, a: int, p: int|
        0 <= t < em.match_tables@.len() && 0 <= a < em.match_tables@[t].arms@.len() && 0 <= p
            < em.match_tables@[t].arms@[a].patterns@.len() ==> pattern_desc_wf(
            #[trigger] em.match_tables@[t].arms@[a].patterns@[p],
            em.constants@.len() as int,
        )
}

/// The later state only extends the earlier one: nothing already
/// emitted is touched.
spec fn em_extends(new: Emitter, prev: Emitter) -> bool {
    &&& prev.constants@.len() <= new.constants@.len()
    &&& forall|i: int| 0 <= i < prev.constants@.len() ==> new.constants@[i] == prev.constants@[i]
    &&& prev.instructions@.len() <= new.instructions@.len()
    &&& forall|i: int|
        0 <= i < prev.instructions@.len() ==> new.instructions@[i] == prev.instructions@[i]
    &&& prev.match_tables@.len() <= new.match_tables@.len()
    &&& forall|i: int|
        0 <= i < prev.match_tables@.len() ==> new.match_tables@[i] == prev.match_tables@[i]
    &&& new.modules == prev.modules
}

impl Emitter {
    /// The pool id of the literal, interning it on first sight.
    #[verifier::loop_isolation(false)]
    fn add_constant(&mut self, v: ConstantValue) -> (id: usize)
        requires
            em_wf(*old(self)),
        ensures
            em_wf(*final(self)),
            em_extends(*final(self), *old(self)),
            final(self).instructions == old(self).instructions,
            final(self).match_tables == old(self).match_tables,
            id < final(self).constants@.len(),
            cv_eq(final(self).constants@[id as int].value, v),
    {
        let mut i: usize = 0;
        while i < self.constants.len()
            invariant
                0 <= i <= self.constants@.len(),
                forall|j: int| 0 <= j < i ==> !cv_eq((#[trigger] self.constants@[j]).value, v),
            decreases self.constants@.len() - i,
        {
            if cv_equal(&self.constants[i].value, &v) {
                return self.constants[i].id;
            }
            i = i + 1;
        }
        let id = self.constants.len();
        self.constants.push(Constant { id, value: v });
        id
    }

    /// Append one instruction.
    fn emit(&mut self, op: usize, operands: Vec<usize>) -> (at: usize)
        requires
            em_wf(*old(self)),
            op < N_OPS,
            (op == OP_LOAD_CONST || op == OP_LOAD_LOCAL || op == OP_STORE_LOCAL || op
                == OP_LOAD_MODULE || op == OP_MODULE_MEMBER) ==> operands@.len() == 1
                && operands@[0] < old(self).constants@.len(),
            op == OP_MATCH_JUMP ==> operands@.len() == 1 && operands@[0] < old(self).match_tables@.len(),
        ensures
            em_wf(*final(self)),
            em_extends(*final(self), *old(self)),
            final(self).constants == old(self).constants,
            final(self).match_tables == old(self).match_tables,
            final(self).instructions@.len() == old(self).instructions@.len() + 1,
            at == old(self).instructions@.len(),
            final(self).instructions@[at as int].opcode_id == op,
            final(self).instructions@[at as int].operands == operands,
    {
        let at = self.instructions.len();
        self.instructions.push(Instruction { opcode_id: op, operands, line: 0 });
        at
    }

    /// Point a recorded jump at its target.
    fn patch(&mut self, at: usize, target: usize)
        requires
            em_wf(*old(self)),
            at < old(self).instructions@.len(),
            old(self).instructions@[at as int].opcode_id == OP_JUMP || old(self).instructions@[at as int].opcode_id == OP_JUMP_IF_FALSE,
        ensures
            em_wf(*final(self)),
            final(self).constants == old(self).constants,
            final(self).match_tables == old(self).match_tables,
            final(self).modules == old(self).modules,
            final(self).instructions@.len() == old(self).instructions@.len(),
            forall|i: int|
                0 <= i < final(self).instructions@.len() && i != at ==> final(self).instructions@[i] == old(self).instructions@[i],
            final(self).instructions@[at as int].opcode_id == old(self).instructions@[at as int].opcode_id,
    {
        let mut operands: Vec<usize> = Vec::new();
        operands.push(target);
        let op = self.instructions[at].opcode_id;
        self.instructions[at] = Instruction { opcode_id: op, operands, line: 0 };
    }

    /// Emit code for one node, leaving exactly one value on the stack.
    #[verifier::loop_isolation(false)]
    fn emit_node(&mut self, n: &ASTNode)
        requires
            em_wf(*old(self)),
        ensures
            em_wf(*final(self)),
            em_extends(*final(self), *old(self)),
            (*n) matches ASTNode::Literal { value } ==> ({
                let ins = final(self).instructions@.last();
                &&& final(self).instructions@.len() == old(self).instructions@.len() + 1
                &&& ins.opcode_id == OP_LOAD_CONST
                &&& ins.operands@.len() == 1
                &&& ins.operands@[0] < final(self).constants@.len()
                &&& lit_cv(value, final(self).constants@[ins.operands@[0] as int].value)
            }),
            (*n) matches ASTNode::ExpressionStatement { expression } ==> ((*expression)
                matches ASTNode::Literal { value } ==> ({
                let ins = final(self).instructions@.last();
                &&& final(self).instructions@.len() == old(self).instructions@.len() + 1
                &&& ins.opcode_id == OP_LOAD_CONST
                &&& ins.operands@.len() == 1
                &&& ins.operands@[0] < final(self).constants@.len()
                &&& lit_cv(value, final(self).constants@[ins.operands@[0] as int].value)
            })),
        decreases *n, 0int,
    {
        match n {
            ASTNode::Literal { value } => {
                let cv = match value {
                    LiteralValue::Number(q) => ConstantValue::Number(*q),
                    LiteralValue::String(s) => ConstantValue::String(s.clone()),
                    LiteralValue::Boolean(b) => ConstantValue::Bool(*b),
                };
                let id = self.add_constant(cv);
                let mut ops: Vec<usize> = Vec::new();
                ops.push(id);
                let _ = self.emit(OP_LOAD_CONST, ops);
            },
            ASTNode::Identifier { name } => {
                let id = self.add_constant(ConstantValue::String(name.clone()));
                let mut ops: Vec<usize> = Vec::new();
                ops.push(id);
                let is_module = contains_name(&self.modules, name);
                if is_module {
                    let _ = self.emit(OP_LOAD_MODULE, ops);
                } else {
                    let _ = self.emit(OP_LOAD_LOCAL, ops);
                }
            },
            ASTNode::Binary { op, left, right } => {
                self.emit_node(left);
                self.emit_node(right);
                let opcode = match op {
                    BinaryOp::Add => OP_ADD,
                    BinaryOp::Sub => OP_SUB,
                    BinaryOp::Mul => OP_MUL,
                    BinaryOp::Div => OP_DIV,
                    BinaryOp::Eq => OP_EQUAL,
                    BinaryOp::Ne => OP_NOT_EQUAL,
                    BinaryOp::Lt => OP_LESS,
                    BinaryOp::Gt => OP_GREATER,
                    BinaryOp::Le => OP_LESS_EQUAL,
                    BinaryOp::Ge => OP_GREATER_EQUAL,
                };
                let _ = self.emit(opcode, Vec::new());
            },
            ASTNode::Unary { op, right } => {
                self.emit_node(right);
                let opcode = match op {
                    UnaryOp::Neg => OP_NEG,
                    UnaryOp::Not => OP_NOT,
                };
                let _ = self.emit(opcode, Vec::new());
            },
            ASTNode::Call { callee, args } => {
                self.emit_node(callee);
                self.emit_list(args);
                let mut ops: Vec<usize> = Vec::new();
                ops.push(args.len());
                let _ = self.emit(OP_CALL, ops);
            },
            ASTNode::Pipeline { left, right } => {
                // `a |> b` is the call `b(a)`; when `b` is already a
                // call, `a` becomes its first argument.
                self.emit_callee_of(right);
                self.emit_node(left);
                self.emit_args_of(right);
                let extra = arg_count_of(right);
                let mut ops: Vec<usize> = Vec::new();
                if extra < usize::MAX {
                    ops.push(1 + extra);
                } else {
                    ops.push(extra);
                }
                let _ = self.emit(OP_CALL, ops);
            },
            ASTNode::Update { left, right } => {
                self.emit_node(left);
                self.emit_node(right);
                let _ = self.emit(OP_UPDATE, Vec::new());
            },
            ASTNode::Array { elements } => {
                self.emit_list(elements);
                let mut ops: Vec<usize> = Vec::new();
                ops.push(elements.len());
                let _ = self.emit(OP_MAKE_ARRAY, ops);
            },
            ASTNode::StructLiteral { fields } => {
                self.emit_fields(fields);
                let mut ops: Vec<usize> = Vec::new();
                ops.push(fields.len());
                let _ = self.emit(OP_MAKE_MAP, ops);
            },
            ASTNode::StructDeconstructPattern { field_names } => {
                let _ = self.emit(OP_LOAD_NIL, Vec::new());
            },
            ASTNode::WildcardPattern => {
                let _ = self.emit(OP_LOAD_NIL, Vec::new());
            },
            ASTNode::LetStatement { name, initializer } => {
                self.emit_node(initializer);
                let id = self.add_constant(ConstantValue::String(name.clone()));
                let mut ops: Vec<usize> = Vec::new();
                ops.push(id);
                let _ = self.emit(OP_STORE_LOCAL, ops);
                let _ = self.emit(OP_LOAD_NIL, Vec::new());
            },
            ASTNode::FuncDeclaration { name, params, body } => {
                let over = self.emit(OP_JUMP, Vec::new());
                let entry = self.instructions.len();
                let mut ps: Vec<String> = Vec::new();
                let mut i: usize = 0;
                while i < params.len()
                    invariant
                        0 <= i <= params@.len(),
                    decreases params@.len() - i,
                {
                    ps.push(params[i].clone());
                    i = i + 1;
                }
                self.functions.push(FuncEntry { name: name.clone(), params: ps, entry });
                self.emit_block(body);
                let _ = self.emit(OP_RETURN, Vec::new());
                let here = self.instructions.len();
                self.patch(over, here);
                let _ = self.emit(OP_LOAD_NIL, Vec::new());
            },
            ASTNode::IfExpression { condition, then_branch, else_branch } => {
                self.emit_node(condition);
                let jf = self.emit(OP_JUMP_IF_FALSE, Vec::new());
                self.emit_block(then_branch);
                let je = self.emit(OP_JUMP, Vec::new());
                let here = self.instructions.len();
                self.patch(jf, here);
                match else_branch {
                    Some(eb) => {
                        self.emit_block(eb);
                    },
                    None => {
                        let _ = self.emit(OP_LOAD_NIL, Vec::new());
                    },
                }
                let end = self.instructions.len();
                self.patch(je, end);
            },
            ASTNode::MatchStatement { value, arms } => {
                self.emit_node(value);
                let tid = self.match_tables.len();
                self.match_tables.push(MatchTable { arms: Vec::new() });
                let mut ops: Vec<usize> = Vec::new();
                ops.push(tid);
                let _ = self.emit(OP_MATCH_JUMP, ops);
                let ghost base = self.instructions@.len();
                let (descs, jumps) = self.emit_arms(arms);
                let end = self.instructions.len();
                let mut j: usize = 0;
                while j < jumps.len()
                    invariant
                        em_wf(*self),
                        0 <= j <= jumps@.len(),
                        old(self).instructions@.len() <= base,
                        forall|a: int|
                            0 <= a < jumps@.len() ==> base <= (#[trigger] jumps@[a])
                                < self.instructions@.len()
                                && self.instructions@[jumps@[a] as int].opcode_id == OP_JUMP,
                        self.constants@.len() >= old(self).constants@.len(),
                        tid < self.match_tables@.len(),
                        self.instructions@.len() == end,
                        em_extends(*self, *old(self)),
                        forall|a: int, p: int|
                            0 <= a < descs@.len() && 0 <= p < (#[trigger] descs@[a]).patterns@.len()
                                ==> pattern_desc_wf(
                                #[trigger] descs@[a].patterns@[p],
                                self.constants@.len() as int,
                            ),
                    decreases jumps@.len() - j,
                {
                    self.patch(jumps[j], end);
                    j = j + 1;
                }
                self.match_tables[tid] = MatchTable { arms: descs };
            },
            ASTNode::EnumDeclaration { name, variants } => {
                let _ = self.emit(OP_LOAD_NIL, Vec::new());
            },
            ASTNode::Import { path } => {
                let _ = self.emit(OP_LOAD_NIL, Vec::new());
            },
            ASTNode::IndexAccess { target, index } => {
                self.emit_node(target);
                self.emit_node(index);
                let _ = self.emit(OP_INDEX_ACCESS, Vec::new());
            },
            ASTNode::PropertyAccess { target, member } => {
                match &**target {
                    ASTNode::Identifier { name } => {
                        let mid = self.add_constant(ConstantValue::String(name.clone()));
                        let mut ops: Vec<usize> = Vec::new();
                        ops.push(mid);
                        let _ = self.emit(OP_LOAD_MODULE, ops);
                        let fid = self.add_constant(ConstantValue::String(member.clone()));
                        let mut ops2: Vec<usize> = Vec::new();
                        ops2.push(fid);
                        let _ = self.emit(OP_MODULE_MEMBER, ops2);
                    },
                    _ => {
                        // validation refuses this shape
                        let _ = self.emit(OP_LOAD_NIL, Vec::new());
                    },
                }
            },
            ASTNode::ExpressionStatement { expression } => {
                self.emit_node(expression);
            },
        }
    }

    /// Emit every node of a list in order.
    #[verifier::loop_isolation(false)]
    fn emit_list(&mut self, s: &Vec<ASTNode>)
        requires
            em_wf(*old(self)),
        ensures
            em_wf(*final(self)),
            em_extends(*final(self), *old(self)),
        decreases s@, 0int,
    {
        let mut i: usize = 0;
        while i < s.len()
            invariant
                em_wf(*self),
                em_extends(*self, *old(self)),
                0 <= i <= s@.len(),
            decreases s@.len() - i,
        {
            self.emit_node(&s[i]);
            i = i + 1;
        }
    }

    /// Emit one struct-literal field: its key, then its value.
    fn emit_field(&mut self, f: &(String, ASTNode))
        requires
            em_wf(*old(self)),
        ensures
            em_wf(*final(self)),
            em_extends(*final(self), *old(self)),
        decreases *f, 0int,
    {
        let id = self.add_constant(ConstantValue::String(f.0.clone()));
        let mut ops: Vec<usize> = Vec::new();
        ops.push(id);
        let _ = self.emit(OP_LOAD_CONST, ops);
        self.emit_node(&f.1);
    }

    /// Emit every field of a struct literal in order.
    #[verifier::loop_isolation(false)]
    fn emit_fields(&mut self, s: &Vec<(String, ASTNode)>)
        requires
            em_wf(*old(self)),
        ensures
            em_wf(*final(self)),
            em_extends(*final(self), *old(self)),
        decreases s@, 0int,
    {
        let mut i: usize = 0;
        while i < s.len()
            invariant
                em_wf(*self),
                em_extends(*self, *old(self)),
                0 <= i <= s@.len(),
            decreases s@.len() - i,
        {
            self.emit_field(&s[i]);
            i = i + 1;
        }
    }

    /// Emit the function position of a pipeline: the callee of a call,
    /// or the right-hand expression itself.
    fn emit_callee_of(&mut self, right: &ASTNode)
        requires
            em_wf(*old(self)),
        ensures
            em_wf(*final(self)),
            em_extends(*final(self), *old(self)),
        decreases *right, 1int,
    {
        match right {
            ASTNode::Call { callee, args } => {
                self.emit_node(callee);
            },
            _ => {
                self.emit_node(right);
            },
        }
    }

    /// Emit the explicit arguments of a pipeline's right-hand call,
    /// if it is one.
    fn emit_args_of(&mut self, right: &ASTNode)
        requires
            em_wf(*old(self)),
        ensures
            em_wf(*final(self)),
            em_extends(*final(self), *old(self)),
        decreases *right, 1int,
    {
        match right {
            ASTNode::Call { callee, args } => {
                self.emit_list(args);
            },
            _ => {},
        }
    }

    /// Compile the patterns of one arm into descriptors, interning
    /// their literals and field names.
    #[verifier::loop_isolation(false)]
    fn build_pattern_descs(&mut self, patterns: &Vec<ASTNode>) -> (descs: Vec<PatternDesc>)
        requires
            em_wf(*old(self)),
        ensures
            em_wf(*final(self)),
            em_extends(*final(self), *old(self)),
            final(self).instructions == old(self).instructions,
            final(self).match_tables == old(self).match_tables,
            forall|p: int|
                0 <= p < descs@.len() ==> pattern_desc_wf(
                    #[trigger] descs@[p],
                    final(self).constants@.len() as int,
                ),
    {
        let mut descs: Vec<PatternDesc> = Vec::new();
        let mut i: usize = 0;
        while i < patterns.len()
            invariant
                em_wf(*self),
                em_extends(*self, *old(self)),
                self.instructions == old(self).instructions,
                self.match_tables == old(self).match_tables,
                0 <= i <= patterns@.len(),
                forall|p: int|
                    0 <= p < descs@.len() ==> pattern_desc_wf(
                        #[trigger] descs@[p],
                        self.constants@.len() as int,
                    ),
            decreases patterns@.len() - i,
        {
            let ghost nc0 = self.constants@.len() as int;
            let d = match &patterns[i] {
                ASTNode::Literal { value } => {
                    let cv = match value {
                        LiteralValue::Number(q) => ConstantValue::Number(*q),
                        LiteralValue::String(s) => ConstantValue::String(s.clone()),
                        LiteralValue::Boolean(b) => ConstantValue::Bool(*b),
                    };
                    let id = self.add_constant(cv);
                    PatternDesc::Lit(id)
                },
                ASTNode::StructDeconstructPattern { field_names } => {
                    let mut ids: Vec<usize> = Vec::new();
                    let mut k: usize = 0;
                    while k < field_names.len()
                        invariant
                            em_wf(*self),
                            em_extends(*self, *old(self)),
                            self.instructions == old(self).instructions,
                            self.match_tables == old(self).match_tables,
                            0 <= k <= field_names@.len(),
                            forall|q: int|
                                0 <= q < ids@.len() ==> (#[trigger] ids@[q]) < self.constants@.len(),
                            nc0 <= self.constants@.len(),
                            forall|p: int|
                                0 <= p < descs@.len() ==> pattern_desc_wf(
                                    #[trigger] descs@[p],
                                    self.constants@.len() as int,
                                ),
                        decreases field_names@.len() - k,
                    {
                        let nm = match &field_names[k].value {
                            TokenValue::Identifier(s) => s.clone(),
                            _ => String::new(),
                        };
                        let id = self.add_constant(ConstantValue::String(nm));
                        ids.push(id);
                        k = k + 1;
                    }
                    PatternDesc::Fields(ids)
                },
                _ => PatternDesc::Wildcard,
            };
            proof {
                let ghost nc1 = self.constants@.len() as int;
                assert(pattern_desc_wf(d, nc1));
                assert forall|pp: int| 0 <= pp < descs@.len() implies pattern_desc_wf(
                    #[trigger] descs@[pp],
                    nc1,
                ) by {
                    lemma_pdw_mono(descs@[pp], nc0, nc1);
                }
            }
            descs.push(d);
            i = i + 1;
        }
        descs
    }

    /// Emit every arm of a match: its descriptors, its body, and the
    /// jump that leaves the match after the body ran.
    #[verifier::loop_isolation(false)]
    fn emit_arms(&mut self, arms: &Vec<MatchArm>) -> (r: (Vec<ArmDesc>, Vec<usize>))
        requires
            em_wf(*old(self)),
        ensures
            em_wf(*final(self)),
            em_extends(*final(self), *old(self)),
            forall|a: int|
                0 <= a < r.1@.len() ==> old(self).instructions@.len() <= (#[trigger] r.1@[a])
                    < final(self).instructions@.len() && final(self).instructions@[r.1@[a] as int].opcode_id
                    == OP_JUMP,
            forall|a: int, p: int|
                0 <= a < r.0@.len() && 0 <= p < (#[trigger] r.0@[a]).patterns@.len()
                    ==> pattern_desc_wf(#[trigger] r.0@[a].patterns@[p], final(self).constants@.len() as int),
        decreases arms@, 0int,
    {
        let mut descs: Vec<ArmDesc> = Vec::new();
        let mut jumps: Vec<usize> = Vec::new();
        let mut i: usize = 0;
        while i < arms.len()
            invariant
                em_wf(*self),
                em_extends(*self, *old(self)),
                0 <= i <= arms@.len(),
                forall|a: int|
                    0 <= a < jumps@.len() ==> old(self).instructions@.len() <= (
                    #[trigger] jumps@[a]) < self.instructions@.len()
                        && self.instructions@[jumps@[a] as int].opcode_id == OP_JUMP,
                forall|a: int, p: int|
                    0 <= a < descs@.len() && 0 <= p < (#[trigger] descs@[a]).patterns@.len()
                        ==> pattern_desc_wf(
                        #[trigger] descs@[a].patterns@[p],
                        self.constants@.len() as int,
                    ),
            decreases arms@.len() - i,
        {
            let ghost nca = self.constants@.len() as int;
            let (d, j) = self.emit_arm(&arms[i]);
            proof {
                assert forall|a: int, pq: int|
                    0 <= a < descs@.len() && 0 <= pq < (#[trigger] descs@[a]).patterns@.len()
                        implies pattern_desc_wf(
                        #[trigger] descs@[a].patterns@[pq],
                        self.constants@.len() as int,
                    ) by {
                    lemma_pdw_mono(descs@[a].patterns@[pq], nca, self.constants@.len() as int);
                }
            }
            descs.push(d);
            jumps.push(j);
            i = i + 1;
        }
        (descs, jumps)
    }

    /// Emit one match arm.
    fn emit_arm(&mut self, arm: &MatchArm) -> (r: (ArmDesc, usize))
        requires
            em_wf(*old(self)),
        ensures
            em_wf(*final(self)),
            em_extends(*final(self), *old(self)),
            old(self).instructions@.len() <= r.1 < final(self).instructions@.len(),
            final(self).instructions@[r.1 as int].opcode_id == OP_JUMP,
            forall|p: int|
                0 <= p < r.0.patterns@.len() ==> pattern_desc_wf(
                    #[trigger] r.0.patterns@[p],
                    final(self).constants@.len() as int,
                ),
        decreases *arm, 0int,
    {
        let patterns = self.build_pattern_descs(&arm.patterns);
        let ghost ncm = self.constants@.len() as int;
        let target = self.instructions.len();
        self.emit_node(&arm.body);
        let _ = self.emit(OP_POP_SCOPE, Vec::new());
        let j = self.emit(OP_JUMP, Vec::new());
        proof {
            assert forall|p: int| 0 <= p < patterns@.len() implies pattern_desc_wf(
                #[trigger] patterns@[p],
                self.constants@.len() as int,
            ) by {
                lemma_pdw_mono(patterns@[p], ncm, self.constants@.len() as int);
            }
        }
        (ArmDesc { patterns, target }, j)
    }

    /// Emit the statements of a block; the last one's value stays on
    /// the stack, an empty block leaves nil.
    #[verifier::loop_isolation(false)]
    fn emit_block(&mut self, stmts: &Vec<ASTNode>)
        requires
            em_wf(*old(self)),
        ensures
            em_wf(*final(self)),
            em_extends(*final(self), *old(self)),
        decreases stmts@, 0int,
    {
        if stmts.len() == 0 {
            let _ = self.emit(OP_LOAD_NIL, Vec::new());
            return ;
        }
        let _ = self.emit(OP_PUSH_SCOPE, Vec::new());
        let mut i: usize = 0;
        while i < stmts.len()
            invariant
                em_wf(*self),
                em_extends(*self, *old(self)),
                0 <= i <= stmts@.len(),
            decreases stmts@.len() - i,
        {
            if i > 0 {
                let _ = self.emit(OP_POP, Vec::new());
            }
            self.emit_node(&stmts[i]);
            i = i + 1;
        }
        let _ = self.emit(OP_POP_SCOPE, Vec::new());
    }
}

proof fn lemma_pdw_mono(p: PatternDesc, nc1: int, nc2: int)
    requires
        pattern_desc_wf(p, nc1),
        nc1 <= nc2,
    ensures
        pattern_desc_wf(p, nc2),
{
    if let PatternDesc::Fields(ids) = p {
        assert forall|i: int| 0 <= i < ids@.len() implies (#[trigger] ids@[i]) < nc2 by {
            assert(ids@[i] < nc1);
        }
    }
}

/// How many explicit arguments the right-hand side of a pipeline
/// already carries.
fn arg_count_of(right: &ASTNode) -> (r: usize)
{
    match right {
        ASTNode::Call { callee, args } => args.len(),
        _ => 0,
    }
}

/// Compile a parsed program: validate it, then lower it to bytecode.
/// Compilation succeeds exactly on the programs [`program_ok`]
/// accepts, and what it produces is well formed in the sense of
/// [`bp_wf`].
#[verifier::loop_isolation(false)]
pub fn compile_program(program: Program) -> (r: Result<BytecodeProgram, String>)
    ensures
        r is Ok <==> program_ok(program),
        r matches Ok(bp) ==> bp_wf(bp),
        r matches Ok(bp) ==> (program.nodes@.len() == 0 ==> (bp.instructions@.len() == 2
            && bp.instructions@[0].opcode_id == OP_LOAD_NIL && bp.instructions@[1].opcode_id
            == OP_HALT)),
        r matches Ok(bp) ==> ((program.nodes@.len() == 1 && (program.nodes@[0]
            matches ASTNode::ExpressionStatement { expression } && (*expression)
            is Literal)) ==> (bp.instructions@.len() == 2 && bp.instructions@[0].opcode_id
            == OP_LOAD_CONST && bp.instructions@[1].opcode_id == OP_HALT)),
{
    let nodes = program.nodes;
    // import ordering
    let mut seen_other = false;
    let mut i: usize = 0;
    while i < nodes.len()
        invariant
            0 <= i <= nodes@.len(),
            seen_other == (exists|j: int| 0 <= j < i && !((#[trigger] nodes@[j]) is Import)),
            imports_first(nodes@.take(i as int)),
        decreases nodes@.len() - i,
    {
        let is_import = matches!(&nodes[i], ASTNode::Import { .. });
        proof {
            assert(nodes@.take(i + 1).drop_last() =~= nodes@.take(i as int));
            assert(forall|a: int| 0 <= a < i ==> nodes@.take(i + 1)[a] == nodes@[a]);
            assert(nodes@.take(i + 1)[i as int] == nodes@[i as int]);
        }
        if is_import {
            if seen_other {
                proof {
                    let w = choose|j: int| 0 <= j < i && !(nodes@[j] is Import);
                    assert(!(nodes@[w] is Import) && nodes@[i as int] is Import && w < i);
                    assert(!imports_first(nodes@));
                }
                return Err(String::from_str("Imports must come before all other statements"));
            }
            proof {
                assert forall|a: int, b: int|
                    0 <= a < b < i + 1 && (#[trigger] nodes@.take(i + 1)[b]) is Import implies (
                #[trigger] nodes@.take(i + 1)[a]) is Import by {
                    if b < i {
                        assert(nodes@.take(i as int)[b] is Import);
                        assert(nodes@.take(i as int)[a] is Import);
                    } else {
                        assert(!(exists|j: int| 0 <= j < i && !(nodes@[j] is Import)));
                        assert(!!(nodes@[a] is Import));
                    }
                }
            }
        } else {
            proof {
                assert forall|a: int, b: int|
                    0 <= a < b < i + 1 && (#[trigger] nodes@.take(i + 1)[b]) is Import implies (
                #[trigger] nodes@.take(i + 1)[a]) is Import by {
                    assert(b < i);
                    assert(nodes@.take(i as int)[b] is Import);
                    assert(nodes@.take(i as int)[a] is Import);
                }
            }
            seen_other = true;
        }
        i = i + 1;
    }
    proof {
        assert(nodes@.take(nodes@.len() as int) =~= nodes@);
    }
    // the names the imports bind
    let mut mods: Vec<String> = Vec::new();
    let mut k: usize = 0;
    proof {
        assert(module_views(nodes@.take(0)) =~= Seq::<Seq<char>>::empty());
        assert(views_of(mods@) =~= Seq::<Seq<char>>::empty());
    }
    while k < nodes.len()
        invariant
            0 <= k <= nodes@.len(),
            views_of(mods@) == module_views(nodes@.take(k as int)),
        decreases nodes@.len() - k,
    {
        proof {
            assert(nodes@.take(k + 1).drop_last() =~= nodes@.take(k as int));
            assert(nodes@.take(k + 1).last() == nodes@[k as int]);
        }
        if let ASTNode::Import { path } = &nodes[k] {
            let ghost before = mods@;
            mods.push(path.clone());
            proof {
                assert(views_of(mods@) =~= views_of(before) + seq![nodes@[k as int]->Import_path@]);
            }
        } else {
            proof {
                assert(module_views(nodes@.take(k + 1)) =~= module_views(nodes@.take(k as int)));
            }
        }
        k = k + 1;
    }
    proof {
        assert(nodes@.take(nodes@.len() as int) =~= nodes@);
    }
    // semantic validation
    if !check_nodes(&nodes, &mods) {
        proof {
            lemma_nodes_ok_index(nodes@, views_of(mods@));
        }
        return Err(String::from_str("Semantic validation failed"));
    }
    // emission
    let mut em = Emitter {
        constants: Vec::new(),
        instructions: Vec::new(),
        match_tables: Vec::new(),
        functions: Vec::new(),
        modules: mods,
    };
    if nodes.len() == 0 {
        let _ = em.emit(OP_LOAD_NIL, Vec::new());
    } else {
        let ghost single_lit = nodes@.len() == 1 && (nodes@[0]
            matches ASTNode::ExpressionStatement { expression } && (*expression) is Literal);
        let mut s: usize = 0;
        while s < nodes.len()
            invariant
                em_wf(em),
                0 <= s <= nodes@.len(),
                single_lit ==> ((s == 0 && em.instructions@.len() == 0) || (s == 1
                    && em.instructions@.len() == 1 && em.instructions@[0].opcode_id
                    == OP_LOAD_CONST)),
            decreases nodes@.len() - s,
        {
            if s > 0 {
                let _ = em.emit(OP_POP, Vec::new());
            }
            em.emit_node(&nodes[s]);
            s = s + 1;
        }
    }
    let _ = em.emit(OP_HALT, Vec::new());
    let bp = BytecodeProgram {
        constants: em.constants,
        opcode_table: build_opcode_table(),
        instructions: em.instructions,
        match_tables: em.match_tables,
        functions: em.functions,
        modules: em.modules,
    };
    Ok(bp)
}

} // verus!
