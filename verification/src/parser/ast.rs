//! The syntax tree and its mathematical model.

use crate::lexer::form::bytes_equal;
use crate::lexer::token::Token;
use vstd::prelude::*;
use vstd::slice::slice_to_vec;

verus! {

/// The type of a value of the language.
#[derive(Debug, PartialEq, Eq)]
pub enum Type {
    U8,
    U16,
    U32,
    U64,
    I32,
    I64,
    F32,
    F64,
    String,
    Byte,
    UserType(Vec<u8>),
    Bool,
    Error,
    /// The type of the literal `none`.
    Null,
}

/// The model of a [`Type`].
pub enum TypeView {
    U8,
    U16,
    U32,
    U64,
    I32,
    I64,
    F32,
    F64,
    String,
    Byte,
    UserType(Seq<u8>),
    Bool,
    Error,
    /// The type of the literal `none`.
    Null,
}

impl View for Type {
    type V = TypeView;

    open spec fn view(&self) -> TypeView {
        match self {
            Type::U8 => TypeView::U8,
            Type::U16 => TypeView::U16,
            Type::U32 => TypeView::U32,
            Type::U64 => TypeView::U64,
            Type::I32 => TypeView::I32,
            Type::I64 => TypeView::I64,
            Type::F32 => TypeView::F32,
            Type::F64 => TypeView::F64,
            Type::String => TypeView::String,
            Type::Byte => TypeView::Byte,
            Type::UserType(name) => TypeView::UserType(name@),
            Type::Bool => TypeView::Bool,
            Type::Error => TypeView::Error,
            Type::Null => TypeView::Null,
        }
    }
}

/// A decoded payload. A floating-point payload is the decimal text of the
/// literal: the library does no floating-point arithmetic.
#[derive(Debug, PartialEq, Eq)]
pub enum RealValue {
    U8(u8),
    U16(u16),
    U32(u32),
    U64(u64),
    I32(i32),
    I64(i64),
    F32(Vec<u8>),
    F64(Vec<u8>),
    String(Vec<u8>),
    Byte(Vec<u8>),
    Error,
    Bool(bool),
    /// The literal `none`.
    Null,
}

/// The model of a [`RealValue`].
pub enum RealValueView {
    U8(u8),
    U16(u16),
    U32(u32),
    U64(u64),
    I32(i32),
    I64(i64),
    F32(Seq<u8>),
    F64(Seq<u8>),
    String(Seq<u8>),
    Byte(Seq<u8>),
    Error,
    Bool(bool),
    /// The literal `none`.
    Null,
}

impl View for RealValue {
    type V = RealValueView;

    open spec fn view(&self) -> RealValueView {
        match self {
            RealValue::U8(v) => RealValueView::U8(*v),
            RealValue::U16(v) => RealValueView::U16(*v),
            RealValue::U32(v) => RealValueView::U32(*v),
            RealValue::U64(v) => RealValueView::U64(*v),
            RealValue::I32(v) => RealValueView::I32(*v),
            RealValue::I64(v) => RealValueView::I64(*v),
            RealValue::F32(t) => RealValueView::F32(t@),
            RealValue::F64(t) => RealValueView::F64(t@),
            RealValue::String(t) => RealValueView::String(t@),
            RealValue::Byte(t) => RealValueView::Byte(t@),
            RealValue::Error => RealValueView::Error,
            RealValue::Bool(b) => RealValueView::Bool(*b),
            RealValue::Null => RealValueView::Null,
        }
    }
}

/// A typed constant that stands where a literal token stood.
#[derive(Debug, PartialEq, Eq)]
pub struct Literal {
    pub ttype: Type,
    pub value: RealValue,
}

/// The model of a [`Literal`].
pub struct LiteralView {
    pub ttype: TypeView,
    pub value: RealValueView,
}

impl View for Literal {
    type V = LiteralView;

    open spec fn view(&self) -> LiteralView {
        LiteralView { ttype: self.ttype@, value: self.value@ }
    }
}

/// One occurrence of a name at the top level of a block: the name and the
/// place of the occurrence in the block's content.
#[derive(Debug, PartialEq, Eq)]
pub struct IdentEntry {
    pub name: Vec<u8>,
    pub index: usize,
}

/// The names that occur at the top level of a block, each with the place of
/// its last occurrence. Entries are kept in the order of the occurrences; a
/// later entry for a name replaces an earlier one.
#[derive(Debug, PartialEq, Eq)]
pub struct IdentMap {
    pub entries: Vec<IdentEntry>,
}

/// The model of a list of entries: the name and the place of each, in the
/// order of the list.
pub open spec fn entries_view(entries: Seq<IdentEntry>) -> Seq<(Seq<u8>, int)> {
    Seq::new(entries.len(), |i: int| (entries[i].name@, entries[i].index as int))
}

/// The map that a list of names and places stands for: each name leads to
/// the place that stands with it last.
pub open spec fn names_map(pairs: Seq<(Seq<u8>, int)>) -> Map<Seq<u8>, int>
    decreases pairs.len(),
{
    if pairs.len() == 0 {
        Map::empty()
    } else {
        names_map(pairs.drop_last()).insert(pairs.last().0, pairs.last().1)
    }
}

impl View for IdentMap {
    type V = Seq<(Seq<u8>, int)>;

    open spec fn view(&self) -> Seq<(Seq<u8>, int)> {
        entries_view(self.entries@)
    }
}

impl IdentMap {
    /// The map from each name to the place of its last occurrence.
    pub open spec fn names(&self) -> Map<Seq<u8>, int> {
        names_map(self@)
    }
}

/// A block after indexing: its content and the names of its top level.
#[derive(Debug, PartialEq, Eq)]
pub struct Scope {
    pub identifiers: IdentMap,
    pub content: Vec<Node>,
}

/// A node of the tree.
#[derive(Debug, PartialEq, Eq)]
pub enum Node {
    /// A group in braces, before indexing.
    Brace(Vec<Node>),
    /// A group in parentheses.
    Paren(Vec<Node>),
    /// A group in square brackets.
    SquareBraket(Vec<Node>),
    /// A single token.
    Token(Token),
    /// A decoded literal.
    Value(Literal),
    /// A group in braces, after indexing.
    Scope(Scope),
}

/// A sequence of nodes that stand side by side.
pub type Tree = Vec<Node>;

/// The model of a [`Scope`].
pub struct ScopeView {
    pub identifiers: Seq<(Seq<u8>, int)>,
    pub content: Seq<NodeView>,
}

impl ScopeView {
    /// The map from each name of the scope to the place of its last
    /// occurrence in the content.
    pub open spec fn names(self) -> Map<Seq<u8>, int> {
        names_map(self.identifiers)
    }
}

/// The model of a [`Node`]: the same tree over sequences and maps.
pub enum NodeView {
    Brace(Seq<NodeView>),
    Paren(Seq<NodeView>),
    SquareBraket(Seq<NodeView>),
    Token(Token),
    Value(LiteralView),
    Scope(ScopeView),
}

/// The model of a sequence of nodes.
pub open spec fn tree_view(nodes: Seq<Node>) -> Seq<NodeView>
    decreases nodes,
{
    Seq::new(
        nodes.len(),
        |i: int|
            if 0 <= i < nodes.len() {
                nodes[i].view()
            } else {
                NodeView::Brace(Seq::empty())
            },
    )
}

impl View for Scope {
    type V = ScopeView;

    open spec fn view(&self) -> ScopeView
        decreases self,
    {
        ScopeView { identifiers: self.identifiers@, content: tree_view(self.content@) }
    }
}

impl View for Node {
    type V = NodeView;

    open spec fn view(&self) -> NodeView
        decreases self,
    {
        match self {
            Node::Brace(c) => NodeView::Brace(tree_view(c@)),
            Node::Paren(c) => NodeView::Paren(tree_view(c@)),
            Node::SquareBraket(c) => NodeView::SquareBraket(tree_view(c@)),
            Node::Token(t) => NodeView::Token(*t),
            Node::Value(l) => NodeView::Value(l@),
            Node::Scope(s) => NodeView::Scope(s.view()),
        }
    }
}

/// The model of a sequence with one more node is the model of the sequence
/// with the model of that node behind it.
pub proof fn lemma_tree_view_push(nodes: Seq<Node>, n: Node)
    ensures
        tree_view(nodes.push(n)) == tree_view(nodes).push(n@),
{
    assert(tree_view(nodes.push(n)) =~= tree_view(nodes).push(n@));
}

/// One more entry puts its name and place behind the others.
pub proof fn lemma_entries_view_push(entries: Seq<IdentEntry>, e: IdentEntry)
    ensures
        entries_view(entries.push(e)) == entries_view(entries).push((e.name@, e.index as int)),
{
    assert(entries_view(entries.push(e)) =~= entries_view(entries).push(
        (e.name@, e.index as int),
    ));
}

/// One more name and place puts them into the map.
pub proof fn lemma_names_map_push(pairs: Seq<(Seq<u8>, int)>, name: Seq<u8>, place: int)
    ensures
        names_map(pairs.push((name, place))) == names_map(pairs).insert(name, place),
{
    assert(pairs.push((name, place)).drop_last() =~= pairs);
}

fn copy_bytes(v: &Vec<u8>) -> (r: Vec<u8>)
    ensures
        r@ == v@,
{
    slice_to_vec(v.as_slice())
}

impl Clone for Type {
    fn clone(&self) -> (r: Self)
        ensures
            r@ == self@,
    {
        match self {
            Type::U8 => Type::U8,
            Type::U16 => Type::U16,
            Type::U32 => Type::U32,
            Type::U64 => Type::U64,
            Type::I32 => Type::I32,
            Type::I64 => Type::I64,
            Type::F32 => Type::F32,
            Type::F64 => Type::F64,
            Type::String => Type::String,
            Type::Byte => Type::Byte,
            Type::UserType(name) => Type::UserType(copy_bytes(name)),
            Type::Bool => Type::Bool,
            Type::Error => Type::Error,
            Type::Null => Type::Null,
        }
    }
}

impl Clone for RealValue {
    fn clone(&self) -> (r: Self)
        ensures
            r@ == self@,
    {
        match self {
            RealValue::U8(v) => RealValue::U8(*v),
            RealValue::U16(v) => RealValue::U16(*v),
            RealValue::U32(v) => RealValue::U32(*v),
            RealValue::U64(v) => RealValue::U64(*v),
            RealValue::I32(v) => RealValue::I32(*v),
            RealValue::I64(v) => RealValue::I64(*v),
            RealValue::F32(t) => RealValue::F32(copy_bytes(t)),
            RealValue::F64(t) => RealValue::F64(copy_bytes(t)),
            RealValue::String(t) => RealValue::String(copy_bytes(t)),
            RealValue::Byte(t) => RealValue::Byte(copy_bytes(t)),
            RealValue::Error => RealValue::Error,
            RealValue::Bool(b) => RealValue::Bool(*b),
            RealValue::Null => RealValue::Null,
        }
    }
}

impl Clone for Literal {
    fn clone(&self) -> (r: Self)
        ensures
            r@ == self@,
    {
        Literal { ttype: self.ttype.clone(), value: self.value.clone() }
    }
}

impl Clone for IdentEntry {
    fn clone(&self) -> (r: Self)
        ensures
            r.name@ == self.name@,
            r.index == self.index,
    {
        IdentEntry { name: copy_bytes(&self.name), index: self.index }
    }
}

impl Clone for IdentMap {
    fn clone(&self) -> (r: Self)
        ensures
            r@ == self@,
    {
        let mut entries: Vec<IdentEntry> = Vec::new();
        let mut i: usize = 0;
        while i < self.entries.len()
            invariant
                0 <= i <= self.entries@.len(),
                entries_view(entries@) =~= entries_view(self.entries@).take(i as int),
            decreases self.entries@.len() - i,
        {
            let e = self.entries[i].clone();
            proof {
                lemma_entries_view_push(entries@, e);
                assert(entries_view(self.entries@).take(i as int).push((e.name@, e.index as int))
                    =~= entries_view(self.entries@).take(i + 1));
            }
            entries.push(e);
            i += 1;
        }
        assert(entries_view(self.entries@).take(i as int) =~= entries_view(self.entries@));
        IdentMap { entries }
    }
}

/// Whether `name` stands at place `j` of the list.
pub open spec fn name_stands_at(pairs: Seq<(Seq<u8>, int)>, j: int, name: Seq<u8>) -> bool {
    0 <= j < pairs.len() && pairs[j].0 == name
}

/// A name is in the map exactly where it stands in the list.
#[verifier::rlimit(50)]
pub proof fn lemma_names_map_contains(pairs: Seq<(Seq<u8>, int)>, name: Seq<u8>)
    ensures
        names_map(pairs).contains_key(name) <==> exists|j: int| #[trigger]
            name_stands_at(pairs, j, name),
    decreases pairs.len(),
{
    if pairs.len() > 0 {
        let before = pairs.drop_last();
        let last = pairs.len() - 1;
        lemma_names_map_contains(before, name);
        if pairs[last].0 == name {
            assert(name_stands_at(pairs, last, name));
        } else {
            if exists|j: int| #[trigger] name_stands_at(pairs, j, name) {
                let j = choose|j: int| #[trigger] name_stands_at(pairs, j, name);
                assert(name_stands_at(before, j, name));
            }
            if exists|j: int| #[trigger] name_stands_at(before, j, name) {
                let j = choose|j: int| #[trigger] name_stands_at(before, j, name);
                assert(name_stands_at(pairs, j, name));
            }
        }
    }
}

/// The map sends a name to the place that stands with it last.
#[verifier::rlimit(50)]
pub proof fn lemma_names_map_last(pairs: Seq<(Seq<u8>, int)>, name: Seq<u8>, j: int)
    requires
        name_stands_at(pairs, j, name),
        forall|k: int| j < k ==> !#[trigger] name_stands_at(pairs, k, name),
    ensures
        names_map(pairs).contains_key(name),
        names_map(pairs)[name] == pairs[j].1,
    decreases pairs.len(),
{
    let before = pairs.drop_last();
    let last = pairs.len() - 1;
    if j < last {
        assert(!name_stands_at(pairs, last, name));
        assert(name_stands_at(before, j, name));
        assert forall|k: int| j < k implies !#[trigger] name_stands_at(before, k, name) by {
            if name_stands_at(before, k, name) {
                assert(name_stands_at(pairs, k, name));
            }
        }
        lemma_names_map_last(before, name, j);
    }
}

impl IdentMap {
    /// A map without a name.
    pub fn new() -> (r: Self)
        ensures
            r@ == Seq::<(Seq<u8>, int)>::empty(),
            r.names() == Map::<Seq<u8>, int>::empty(),
    {
        let r = IdentMap { entries: Vec::new() };
        assert(r@ =~= Seq::<(Seq<u8>, int)>::empty());
        r
    }

    /// The place of the last occurrence of `name`, where the map holds it.
    pub fn get(&self, name: &[u8]) -> (r: Option<usize>)
        ensures
            match r {
                Some(i) => self.names().contains_key(name@) && self.names()[name@] == i,
                None => !self.names().contains_key(name@),
            },
    {
        let mut i: usize = self.entries.len();
        while i > 0
            invariant
                0 <= i <= self.entries@.len(),
                forall|k: int| i <= k ==> !#[trigger] name_stands_at(self@, k, name@),
            decreases i,
        {
            i -= 1;
            if bytes_equal(self.entries[i].name.as_slice(), name) {
                proof {
                    assert(name_stands_at(self@, i as int, name@));
                    lemma_names_map_last(self@, name@, i as int);
                }
                return Some(self.entries[i].index);
            }
        }
        proof {
            lemma_names_map_contains(self@, name@);
        }
        None
    }
}

/// A copy of a sequence of nodes.
pub fn clone_tree(nodes: &Vec<Node>) -> (r: Vec<Node>)
    ensures
        tree_view(r@) == tree_view(nodes@),
    decreases nodes,
{
    let mut out: Vec<Node> = Vec::new();
    let mut i: usize = 0;
    while i < nodes.len()
        invariant
            0 <= i <= nodes@.len(),
            tree_view(out@) == tree_view(nodes@.take(i as int)),
        decreases nodes@.len() - i,
    {
        let n = nodes[i].clone();
        proof {
            lemma_tree_view_push(out@, n);
            lemma_tree_view_push(nodes@.take(i as int), nodes@[i as int]);
            assert(nodes@.take(i as int).push(nodes@[i as int]) =~= nodes@.take(i + 1));
        }
        out.push(n);
        i += 1;
    }
    assert(nodes@.take(i as int) =~= nodes@);
    out
}

impl Clone for Scope {
    fn clone(&self) -> (r: Self)
        ensures
            r@ == self@,
        decreases self,
    {
        Scope { identifiers: self.identifiers.clone(), content: clone_tree(&self.content) }
    }
}

impl Clone for Node {
    fn clone(&self) -> (r: Self)
        ensures
            r@ == self@,
        decreases self,
    {
        match self {
            Node::Brace(c) => Node::Brace(clone_tree(c)),
            Node::Paren(c) => Node::Paren(clone_tree(c)),
            Node::SquareBraket(c) => Node::SquareBraket(clone_tree(c)),
            Node::Token(t) => Node::Token(*t),
            Node::Value(l) => Node::Value(l.clone()),
            Node::Scope(s) => Node::Scope(s.clone()),
        }
    }
}

/// A name as it stands in the source.
pub type Identifier = Vec<u8>;

/// The name of a module.
pub type ModStatement = Vec<u8>;

/// An expression in parentheses.
pub type ParenExpression = Box<Expression>;

/// The values of a list.
pub type List = Vec<Value>;

/// The values of a tuple.
pub type Tuple = Vec<Value>;

/// One branch of a switch.
pub type SwitchBranch = If;

/// The making of a struct, written like a call.
pub type StructValue = FnCall;

/// The operators that stand between two operands.
#[derive(Debug, Copy, Clone, PartialEq, Eq)]
pub enum BinaryOperatorKind {
    Sum,
    Multiplication,
    Subtraction,
    Division,
    Exponent,
    And,
    Or,
    Greater,
    Less,
    Equal,
    GreaterEqual,
    LessEqual,
}

/// The operators that stand before one operand.
#[derive(Debug, Copy, Clone, PartialEq, Eq)]
pub enum UnaryOperatorKind {
    Negative,
    Not,
}

/// The ways to change a variable.
#[derive(Debug, Copy, Clone, PartialEq, Eq)]
pub enum MutationKind {
    AssignAdd,
    AssignSubtract,
    AssignMultiply,
    AssignDivide,
    AssignExponent,
    Assign,
}

/// What stands in the brackets behind an object.
#[derive(Debug, Copy, Clone, PartialEq, Eq)]
pub enum Index {
    Int(u64),
    Range,
}

/// The declaration of an enum.
#[derive(Debug)]
pub struct Enum {
    pub name: Vec<u8>,
    pub members: Vec<EnumMember>,
}

/// One member of an enum, with the type of what it holds.
#[derive(Debug)]
pub struct EnumMember {
    pub name: Vec<u8>,
    pub ttype: Option<Type>,
}

/// A whole source file.
#[derive(Debug)]
pub struct ProgramFile {
    pub imports: Vec<ImportStatement>,
    pub mods: Vec<ModStatement>,
    pub body: Vec<Statement>,
}

#[derive(Debug)]
pub struct BinaryOperator {
    pub op: BinaryOperatorKind,
    pub left: Box<Expression>,
    pub right: Box<Expression>,
}

#[derive(Debug)]
pub struct UnaryOperator {
    pub op: BinaryOperatorKind,
    pub right: Box<Expression>,
}

/// A statement to trace.
#[derive(Debug)]
pub struct Debug {
    pub child: Box<Statement>,
}

#[derive(Debug)]
pub struct IfElseStatement {
    pub if_branch: IfStatement,
    pub elseif_branches: Vec<IfStatement>,
    pub else_branch: Option<Block>,
}

#[derive(Debug)]
pub struct IfStatement {
    pub condition: Expression,
    pub body: Block,
}

/// A block with the names of its top level.
#[derive(Debug)]
pub struct Block {
    pub scope: IdentMap,
    pub contents: Vec<Node>,
}

#[derive(Debug)]
pub struct IfElse {
    pub if_branch: If,
    pub elseif_branches: Vec<If>,
    pub else_branch: Option<Box<Node>>,
}

#[derive(Debug)]
pub struct If {
    pub condition: Box<Expression>,
    pub body: Block,
}

#[derive(Debug)]
pub enum Expression {
    BinaryOperator(BinaryOperator),
    UnaryOperator(UnaryOperator),
    Value(Value),
    IfElse(IfElse),
    Switch(Switch),
    ParenExpression(ParenExpression),
}

#[derive(Debug)]
pub enum Statement {
    FnCall(FnCall),
    For(For),
    While(While),
    Loop(Loop),
    Debug(Debug),
    Assign(Assign),
    Mutate(Mutate),
    Fn(Fn),
    Struct(Struct),
    Enum(Enum),
    IfElse(IfElse),
    Switch(Switch),
    ImportStatement(ImportStatement),
    ModStatement(ModStatement),
    Break,
    Continue,
}

#[derive(Debug)]
pub struct ImportStatement {
    pub root: Object,
    pub children: Vec<Object>,
}

#[derive(Debug)]
pub struct Switch {
    pub item: Value,
    pub branches: Vec<SwitchBranch>,
    pub default: Option<Block>,
}

#[derive(Debug)]
pub enum Value {
    FnCall(FnCall),
    Object(Object),
    Literal(Literal),
    List(List),
}

/// A name, a call or an index, and what is reached through it.
#[derive(Debug)]
pub struct Object {
    pub root: ObjectMember,
    pub child: Option<Box<Object>>,
}

#[derive(Debug)]
pub enum ObjectMember {
    Identifier(Identifier),
    FnCall(FnCall),
    Index(Index),
    Namespace(Vec<u8>),
}

#[derive(Debug)]
pub struct Assign {
    pub mutable: bool,
    pub variables: Vec<Identifier>,
    pub values: Tuple,
    pub ttype: Option<Type>,
}

#[derive(Debug)]
pub struct Mutate {
    pub kind: MutationKind,
    pub variables: Vec<Identifier>,
    pub values: Tuple,
}

#[derive(Debug)]
pub struct FnCall {
    pub identifier: Identifier,
    pub arguments: Vec<ArgValue>,
}

#[derive(Debug)]
pub struct Fn {
    pub identifier: Identifier,
    pub arguments: Vec<Arg>,
    pub return_types: Vec<Type>,
    pub body: Block,
}

#[derive(Debug)]
pub struct Arg {
    pub name: Identifier,
    pub ttype: Type,
    pub default_value: Option<Literal>,
}

#[derive(Debug)]
pub struct ArgValue {
    pub name: Option<Identifier>,
    pub value: Expression,
}

#[derive(Debug)]
pub struct For {
    pub elem: Vec<Identifier>,
    pub iterator: Iterable,
    pub body: Block,
}

#[derive(Debug)]
pub enum Iterable {
    Range(Range),
    Object(Object),
}

/// The bounds of a loop over numbers.
#[derive(Debug)]
pub struct Range {
    pub start: Value,
    pub end: Value,
    pub step: Option<Value>,
}

#[derive(Debug)]
pub struct While {
    pub condition: Expression,
    pub body: Block,
}

#[derive(Debug)]
pub struct Loop {
    pub body: Block,
}

#[derive(Debug)]
pub struct Struct {
    pub name: Vec<u8>,
    pub members: Vec<Arg>,
}

} // verus!
