//! Parsing clusterfiles, line by line, into a [`ParseArena`] of [`NodeData`].
//!
//! A clusterfile is a list of lines. Each non-blank line is one expression
//! (`cmd`, `fmd`, `cpy`, `arg`, `mod`) or a comment (`#`); blank lines split
//! the expressions into steps. The parse yields a tree: a module node at the
//! root, step nodes below it, and the expressions of each step below that.
//!
//! A `mod` line names another clusterfile whose parse is appended to the
//! arena. Reading that file is the caller's work: the parse state machine
//! asks for it with [`LineAction::LoadModule`] and takes the parsed module
//! with [`ParseState::attach_module`].

use vstd::prelude::*;

use crate::arena::{
    fresh_node, ids_fit, lemma_without_id, shift, spec_make_parent, unlink, NodeId, NodeView, ParseArena,
};
use crate::error::Error;
use crate::render::{lemma_forward_reach, reach_ok, renderable, root_of, ArenaView};
use crate::text::{clipped_slice, get_value, is_white_space, lemma_trimmed_padded, same_text, trim, trimmed};

verus! {

/// Specify what kind of value the node has.
#[derive(Debug, Clone, Copy, PartialEq, Eq, Structural)]
pub enum NodeType {
    Module,
    Step,
    Comment,
    Command,
    Copy,
    FallbackCommand,
    Argument,
}

impl NodeType {
    /// The name of the variant, as `Debug` writes it.
    pub open spec fn spec_name(self) -> Seq<char> {
        match self {
            NodeType::Module => "Module"@,
            NodeType::Step => "Step"@,
            NodeType::Comment => "Comment"@,
            NodeType::Command => "Command"@,
            NodeType::Copy => "Copy"@,
            NodeType::FallbackCommand => "FallbackCommand"@,
            NodeType::Argument => "Argument"@,
        }
    }

    pub fn name(&self) -> (s: &'static str)
        ensures
            s@ == self.spec_name(),
    {
        match self {
            NodeType::Module => "Module",
            NodeType::Step => "Step",
            NodeType::Comment => "Comment",
            NodeType::Command => "Command",
            NodeType::Copy => "Copy",
            NodeType::FallbackCommand => "FallbackCommand",
            NodeType::Argument => "Argument",
        }
    }
}

/// The value of one node of a parsed clusterfile.
#[derive(Debug, PartialEq, Eq)]
pub struct NodeData {
    pub node_type: NodeType,
    pub lineno: u32,
    pub value: Option<String>,
}

/// The mathematical picture of [`NodeData`].
pub struct NodeDataView {
    pub node_type: NodeType,
    pub lineno: u32,
    pub value: Option<Seq<char>>,
}

pub open spec fn opt_string_view(s: Option<String>) -> Option<Seq<char>> {
    match s {
        Some(v) => Some(v@),
        None => None,
    }
}

impl View for NodeData {
    type V = NodeDataView;

    open spec fn view(&self) -> NodeDataView {
        NodeDataView {
            node_type: self.node_type,
            lineno: self.lineno,
            value: opt_string_view(self.value),
        }
    }
}

pub open spec fn data_view(node_type: NodeType, lineno: u32, value: Option<Seq<char>>) -> NodeDataView {
    NodeDataView { node_type, lineno, value }
}

/// The text a node is shown with: the name of its type, a space, and its
/// value in parentheses when it has one.
pub open spec fn spec_label(d: NodeDataView) -> Seq<char> {
    d.node_type.spec_name() + " "@ + match d.value {
        Some(v) => "("@ + v + ")"@,
        None => Seq::empty(),
    }
}

impl NodeData {
    pub fn new_step(lineno: u32) -> (d: NodeData)
        ensures
            d@ == data_view(NodeType::Step, lineno, None),
    {
        NodeData { node_type: NodeType::Step, lineno, value: None }
    }

    pub fn new_module(lineno: u32, value: String) -> (d: NodeData)
        ensures
            d@ == data_view(NodeType::Module, lineno, Some(value@)),
    {
        NodeData { node_type: NodeType::Module, lineno, value: Some(value) }
    }

    pub fn new_with_value(node_type: NodeType, lineno: u32, value: String) -> (d: NodeData)
        ensures
            d@ == data_view(node_type, lineno, Some(value@)),
    {
        NodeData { node_type, lineno, value: Some(value) }
    }

    /// The text this node is shown with, see [`spec_label`].
    pub fn label(&self) -> (s: String)
        ensures
            s@ == spec_label(self@),
    {
        let mut s = String::from_str(self.node_type.name());
        s.append(" ");
        match &self.value {
            Some(v) => {
                s.append("(");
                s.append(v.as_str());
                s.append(")");
            },
            None => {},
        }
        s
    }
}

/// The two line syntaxes: `Clusterfile` knows `cmd`, `fmd`, `cpy`, `arg`,
/// `mod` and comments, which belong to the current step. `Basic` knows `cmd`,
/// `fmd` (an ordinary command there), `arg`, `mod` and comments, which stand
/// apart from any step.
#[derive(Debug, Clone, Copy, PartialEq, Eq, Structural)]
pub enum Syntax {
    Clusterfile,
    Basic,
}

/// What one (trimmed) line of a clusterfile says.
pub enum LineKind {
    /// A node of the given type and value, attached to the current step.
    Attached(NodeType, Seq<char>),
    /// A node of the given type and value that is attached to nothing.
    Detached(NodeType, Seq<char>),
    /// A module to be read from the file of the given name.
    Module(Seq<char>),
    /// No expression; the first three characters of the line are given.
    Invalid(Seq<char>),
}

/// The first three characters of a line: its keyword.
pub open spec fn keyword(line: Seq<char>) -> Seq<char> {
    clipped_slice(line, 0, 3)
}

/// A line after its keyword and the one character that follows it.
pub open spec fn argument(line: Seq<char>) -> Seq<char> {
    clipped_slice(line, 4, line.len() as int)
}

/// A line after its first character.
pub open spec fn comment_text(line: Seq<char>) -> Seq<char> {
    clipped_slice(line, 1, line.len() as int)
}

pub open spec fn is_comment(line: Seq<char>) -> bool {
    line.len() > 0 && line[0] == '#'
}

pub open spec fn classify(line: Seq<char>, syntax: Syntax) -> LineKind {
    let kw = keyword(line);
    match syntax {
        Syntax::Clusterfile => {
            if kw == "cmd"@ {
                LineKind::Attached(NodeType::Command, argument(line))
            } else if kw == "fmd"@ {
                LineKind::Attached(NodeType::FallbackCommand, argument(line))
            } else if kw == "cpy"@ {
                LineKind::Attached(NodeType::Copy, argument(line))
            } else if kw == "arg"@ {
                LineKind::Attached(NodeType::Argument, argument(line))
            } else if kw == "mod"@ {
                LineKind::Module(argument(line))
            } else if is_comment(line) {
                LineKind::Attached(NodeType::Comment, comment_text(line))
            } else {
                LineKind::Invalid(kw)
            }
        },
        Syntax::Basic => {
            if is_comment(line) {
                LineKind::Detached(NodeType::Comment, comment_text(line))
            } else if kw == "cmd"@ || kw == "fmd"@ {
                LineKind::Attached(NodeType::Command, argument(line))
            } else if kw == "arg"@ {
                LineKind::Attached(NodeType::Argument, argument(line))
            } else if kw == "mod"@ {
                LineKind::Module(argument(line))
            } else {
                LineKind::Invalid(kw)
            }
        },
    }
}

/// The arena after a line of the given kind was added to it below `parent`.
pub open spec fn line_arena(
    arena: Seq<NodeView<NodeDataView>>,
    parent: nat,
    lineno: u32,
    kind: LineKind,
) -> Seq<NodeView<NodeDataView>> {
    match kind {
        LineKind::Attached(t, v) => spec_make_parent(
            arena.push(fresh_node(data_view(t, lineno, Some(v)))),
            parent,
            arena.len(),
        ),
        LineKind::Detached(t, v) => arena.push(fresh_node(data_view(t, lineno, Some(v)))),
        _ => arena,
    }
}

/// The message of the error for a line that holds no expression.
pub open spec fn invalid_message(kw: Seq<char>) -> Seq<char> {
    "Invalid expression: "@ + kw
}

/// What the parse of a line asks of its caller.
#[derive(Debug)]
pub enum LineAction {
    /// Nothing: the line is in the arena.
    Continue,
    /// Parse the module in the file of this name and attach it.
    LoadModule(String),
}

/// Exec counterpart of [`LineKind`].
enum Classified {
    Attached(NodeType, String),
    Detached(NodeType, String),
    Module(String),
    Invalid(String),
}

impl View for Classified {
    type V = LineKind;

    closed spec fn view(&self) -> LineKind {
        match self {
            Classified::Attached(t, v) => LineKind::Attached(*t, v@),
            Classified::Detached(t, v) => LineKind::Detached(*t, v@),
            Classified::Module(v) => LineKind::Module(v@),
            Classified::Invalid(v) => LineKind::Invalid(v@),
        }
    }
}

fn classify_line(line: &str, syntax: Syntax) -> (c: Classified)
    ensures
        c@ == classify(line@, syntax),
{
    let len = line.unicode_len();
    let kw = get_value(line, 0, 3);
    let comment = len > 0 && line.get_char(0) == '#';
    match syntax {
        Syntax::Clusterfile => {
            if same_text(kw.as_str(), "cmd") {
                Classified::Attached(NodeType::Command, get_value(line, 4, len))
            } else if same_text(kw.as_str(), "fmd") {
                Classified::Attached(NodeType::FallbackCommand, get_value(line, 4, len))
            } else if same_text(kw.as_str(), "cpy") {
                Classified::Attached(NodeType::Copy, get_value(line, 4, len))
            } else if same_text(kw.as_str(), "arg") {
                Classified::Attached(NodeType::Argument, get_value(line, 4, len))
            } else if same_text(kw.as_str(), "mod") {
                Classified::Module(get_value(line, 4, len))
            } else if comment {
                Classified::Attached(NodeType::Comment, get_value(line, 1, len))
            } else {
                Classified::Invalid(kw)
            }
        },
        Syntax::Basic => {
            if comment {
                Classified::Detached(NodeType::Comment, get_value(line, 1, len))
            } else if same_text(kw.as_str(), "cmd") || same_text(kw.as_str(), "fmd") {
                Classified::Attached(NodeType::Command, get_value(line, 4, len))
            } else if same_text(kw.as_str(), "arg") {
                Classified::Attached(NodeType::Argument, get_value(line, 4, len))
            } else if same_text(kw.as_str(), "mod") {
                Classified::Module(get_value(line, 4, len))
            } else {
                Classified::Invalid(kw)
            }
        },
    }
}

/// The parse of one trimmed line below `parent`, in the given syntax.
fn apply_line(
    arena: &mut ParseArena<NodeData>,
    parent: NodeId,
    lineno: u32,
    line: &str,
    syntax: Syntax,
) -> (r: Result<LineAction, Error>)
    requires
        classify(line@, syntax) is Attached ==> parent@ < old(arena)@.len(),
    ensures
        line_result(r, final(arena)@, old(arena)@, parent@, lineno, classify(line@, syntax)),
{
    match classify_line(line, syntax) {
        Classified::Attached(t, v) => {
            let n = arena.add_node(NodeData::new_with_value(t, lineno, v));
            arena.make_parent(parent, n);
            Ok(LineAction::Continue)
        },
        Classified::Detached(t, v) => {
            arena.add_node(NodeData::new_with_value(t, lineno, v));
            Ok(LineAction::Continue)
        },
        Classified::Module(filename) => Ok(LineAction::LoadModule(filename)),
        Classified::Invalid(kw) => {
            let mut message = String::from_str("Invalid expression: ");
            message.append(kw.as_str());
            Err(Error::parse_error(lineno, message))
        },
    }
}

/// How the parse of a line of the given kind ends: the arena it leaves, and
/// what it returns.
pub open spec fn line_result(
    r: Result<LineAction, Error>,
    after: Seq<NodeView<NodeDataView>>,
    before: Seq<NodeView<NodeDataView>>,
    parent: nat,
    lineno: u32,
    kind: LineKind,
) -> bool {
    match kind {
        LineKind::Invalid(kw) => {
            &&& r matches Err(Error::ParseError { line: l, message: m })
            &&& l == lineno
            &&& m@ == invalid_message(kw)
            &&& after == before
        },
        LineKind::Module(f) => {
            &&& r matches Ok(LineAction::LoadModule(name))
            &&& name@ == f
            &&& after == before
        },
        _ => {
            &&& r matches Ok(LineAction::Continue)
            &&& after == line_arena(before, parent, lineno, kind)
        },
    }
}

/// Parse a single clusterfile line and add the corresponding node below
/// `parent`. A `mod` line adds nothing: its file name is handed back.
pub fn parse_line(arena: &mut ParseArena<NodeData>, parent: NodeId, lineno: u32, line: &str) -> (r:
    Result<LineAction, Error>)
    requires
        classify(line@, Syntax::Clusterfile) is Attached ==> parent@ < old(arena)@.len(),
    ensures
        line_result(
            r,
            final(arena)@,
            old(arena)@,
            parent@,
            lineno,
            classify(line@, Syntax::Clusterfile),
        ),
{
    apply_line(arena, parent, lineno, line, Syntax::Clusterfile)
}

/// A parser of the basic syntax for the files under one directory.
pub struct Parser {
    cwd: String,
}

impl View for Parser {
    type V = Seq<char>;

    /// The directory of the parser.
    closed spec fn view(&self) -> Seq<char> {
        self.cwd@
    }
}

impl Parser {
    pub fn new(cwd: String) -> (p: Parser)
        ensures
            p@ == cwd@,
    {
        Parser { cwd }
    }

    /// The directory that module file names are relative to.
    pub fn cwd(&self) -> (c: &String)
        ensures
            c@ == self@,
    {
        &self.cwd
    }

    /// Parse a single line of the basic syntax and add the corresponding
    /// node; see [`Syntax::Basic`].
    pub fn parse_line(
        &mut self,
        arena: &mut ParseArena<NodeData>,
        parent: NodeId,
        lineno: u32,
        line: &str,
    ) -> (r: Result<LineAction, Error>)
        requires
            classify(line@, Syntax::Basic) is Attached ==> parent@ < old(arena)@.len(),
        ensures
            line_result(r, final(arena)@, old(arena)@, parent@, lineno, classify(line@, Syntax::Basic)),
            final(self)@ == old(self)@,
    {
        apply_line(arena, parent, lineno, line, Syntax::Basic)
    }
}

/// The parse of one clusterfile in progress: the arena built so far, the step
/// that new expressions go below, and the number of the last line read.
pub struct ParseState {
    arena: ParseArena<NodeData>,
    parent: NodeId,
    lineno: u32,
    module_name: String,
    syntax: Syntax,
}

/// The mathematical picture of a [`ParseState`].
pub struct ParseStateView {
    pub arena: Seq<NodeView<NodeDataView>>,
    pub parent: nat,
    pub lineno: u32,
    pub module_name: Seq<char>,
    pub syntax: Syntax,
}

impl View for ParseState {
    type V = ParseStateView;

    closed spec fn view(&self) -> ParseStateView {
        ParseStateView {
            arena: self.arena@,
            parent: self.parent@,
            lineno: self.lineno,
            module_name: self.module_name@,
            syntax: self.syntax,
        }
    }
}

/// The arena every parse starts from: the module node, and below it the
/// first step.
pub open spec fn initial_arena(module_name: Seq<char>) -> Seq<NodeView<NodeDataView>> {
    spec_make_parent(
        seq![
            fresh_node(data_view(NodeType::Module, 0, Some(module_name))),
            fresh_node(data_view(NodeType::Step, 0, None)),
        ],
        0,
        1,
    )
}

/// The shape every parse state keeps: root and first step are there, and the
/// current step is a node of the arena.
pub open spec fn state_ok(s: ParseStateView) -> bool {
    &&& s.arena.len() >= 2
    &&& s.parent < s.arena.len()
}

pub open spec fn initial_state(module_name: Seq<char>, syntax: Syntax) -> ParseStateView {
    ParseStateView { arena: initial_arena(module_name), parent: 1, lineno: 0, module_name, syntax }
}

/// The outcome of feeding one line to a parse.
pub enum Fed {
    /// The parse goes on from this state.
    Next(ParseStateView),
    /// The parse goes on from this state once the module in the named file
    /// is attached.
    Load(ParseStateView, Seq<char>),
    /// The parse failed at this line with this message.
    Failed(u32, Seq<char>),
}

/// Whether the last node of the arena is a step.
pub open spec fn ends_with_step(arena: Seq<NodeView<NodeDataView>>) -> bool {
    arena.len() > 0 && arena.last().data.node_type == NodeType::Step
}

/// One raw line (as read, with its line break) fed to the parse in state `s`.
/// A line that is just a line break starts a new step, unless the last node
/// is a step already; any other line is trimmed and parsed.
pub open spec fn spec_feed(s: ParseStateView, raw: Seq<char>) -> Fed {
    let n = (s.lineno + 1) as u32;
    if raw == seq!['\n'] {
        if !ends_with_step(s.arena) {
            Fed::Next(
                ParseStateView {
                    arena: spec_make_parent(
                        s.arena.push(fresh_node(data_view(NodeType::Step, n, None))),
                        0,
                        s.arena.len(),
                    ),
                    parent: s.arena.len(),
                    lineno: n,
                    module_name: s.module_name,
                    syntax: s.syntax,
                },
            )
        } else {
            Fed::Next(
                ParseStateView {
                    arena: s.arena,
                    parent: s.parent,
                    lineno: n,
                    module_name: s.module_name,
                    syntax: s.syntax,
                },
            )
        }
    } else {
        let kind = classify(trimmed(raw), s.syntax);
        match kind {
            LineKind::Invalid(kw) => Fed::Failed(n, invalid_message(kw)),
            LineKind::Module(f) => Fed::Load(
                ParseStateView {
                    arena: s.arena,
                    parent: s.parent,
                    lineno: n,
                    module_name: s.module_name,
                    syntax: s.syntax,
                },
                f,
            ),
            _ => Fed::Next(
                ParseStateView {
                    arena: line_arena(s.arena, s.parent, n, kind),
                    parent: s.parent,
                    lineno: n,
                    module_name: s.module_name,
                    syntax: s.syntax,
                },
            ),
        }
    }
}

/// Whether `r` and the state `after` are what [`spec_feed`] says.
pub open spec fn fed_result(r: Result<LineAction, Error>, after: ParseStateView, fed: Fed) -> bool {
    match fed {
        Fed::Next(t) => r matches Ok(LineAction::Continue) && after == t,
        Fed::Load(t, f) => {
            &&& r matches Ok(LineAction::LoadModule(name))
            &&& name@ == f
            &&& after == t
        },
        Fed::Failed(l, m) => {
            &&& r matches Err(Error::ParseError { line, message })
            &&& line == l
            &&& message@ == m
        },
    }
}

/// The state after the parse of a module was attached: the module's nodes
/// follow the arena's, their ids moved up by the arena's length so that they
/// keep their tree, and the module's root becomes the last child of the
/// current step.
pub open spec fn spec_attach(s: ParseStateView, module: Seq<NodeView<NodeDataView>>) -> ParseStateView {
    ParseStateView {
        arena: spec_make_parent(s.arena + shift(module, s.arena.len()), s.parent, s.arena.len()),
        parent: s.parent,
        lineno: s.lineno,
        module_name: s.module_name,
        syntax: s.syntax,
    }
}

/// The message of the error for a module without expressions.
pub open spec fn empty_module_message(module_name: Seq<char>) -> Seq<char> {
    "Module "@ + module_name + " must contain at least one expression."@
}

/// The end of a parse: a module in the clusterfile syntax that holds no more
/// than its root and first step is refused; otherwise the arena is the
/// result, without its last node, and without every link to it, if that is
/// a step.
pub open spec fn spec_finish(s: ParseStateView) -> Result<Seq<NodeView<NodeDataView>>, (u32, Seq<char>)> {
    if s.syntax == Syntax::Clusterfile && s.arena.len() <= 2 {
        Err((0u32, empty_module_message(s.module_name)))
    } else if ends_with_step(s.arena) {
        Ok(unlink(s.arena, (s.arena.len() - 1) as nat).drop_last())
    } else {
        Ok(s.arena)
    }
}

impl ParseState {
    /// Starts the parse of a module of the given name.
    pub fn begin(module_name: String, syntax: Syntax) -> (s: ParseState)
        ensures
            s@ == initial_state(module_name@, syntax),
            state_ok(s@),
    {
        let mut arena = ParseArena::new();
        let root = arena.add_node(NodeData::new_module(0, module_name.clone()));
        let step = arena.add_node(NodeData::new_step(0));
        arena.make_parent(root, step);
        proof {
            assert(arena@ =~= initial_arena(module_name@));
        }
        ParseState { arena, parent: step, lineno: 0, module_name, syntax }
    }

    /// The number of the last line fed.
    pub fn lineno(&self) -> (n: u32)
        ensures
            n == self@.lineno,
    {
        self.lineno
    }

    /// The arena built so far.
    pub fn arena(&self) -> (a: &ParseArena<NodeData>)
        ensures
            a@ == self@.arena,
    {
        &self.arena
    }

    /// Parse one line as read from the clusterfile, line break included.
    pub fn feed_line(&mut self, raw: &str) -> (r: Result<LineAction, Error>)
        requires
            state_ok(old(self)@),
            old(self)@.lineno < u32::MAX,
        ensures
            fed_result(r, final(self)@, spec_feed(old(self)@, raw@)),
            r is Ok ==> state_ok(final(self)@),
    {
        let lineno = self.lineno + 1;
        if raw.unicode_len() == 1 && raw.get_char(0) == '\n' {
            proof {
                assert(raw@ =~= seq!['\n']);
            }
            let last = self.arena.count() - 1;
            let last_is_step = match self.arena.get_node(&NodeId::new(last)).data.node_type {
                NodeType::Step => true,
                _ => false,
            };
            if !last_is_step {
                let step = self.arena.add_node(NodeData::new_step(lineno));
                self.arena.make_parent(NodeId::new(0), step);
                self.parent = step;
            }
            self.lineno = lineno;
            Ok(LineAction::Continue)
        } else {
            proof {
                if raw@ == seq!['\n'] {
                    assert(raw@.len() == 1 && raw@[0] == '\n');
                }
            }
            let line = trim(raw);
            let r = apply_line(&mut self.arena, self.parent, lineno, line.as_str(), self.syntax);
            self.lineno = lineno;
            r
        }
    }

    /// Attach the parse of the module that the last line asked for.
    pub fn attach_module(&mut self, module: ParseArena<NodeData>)
        requires
            state_ok(old(self)@),
            module@.len() > 0,
            old(self)@.arena.len() + module@.len() <= usize::MAX,
            ids_fit(module@, old(self)@.arena.len()),
        ensures
            final(self)@ == spec_attach(old(self)@, module@),
            state_ok(final(self)@),
    {
        let (start, _) = self.arena.append(module);
        self.arena.make_parent(self.parent, start);
    }

    /// End the parse and hand out the arena.
    pub fn finish(self) -> (r: Result<ParseArena<NodeData>, Error>)
        requires
            state_ok(self@),
        ensures
            match spec_finish(self@) {
                Ok(a) => r matches Ok(arena) && arena@ == a,
                Err((l, m)) => r matches Err(Error::ParseError { line, message }) && line == l
                    && message@ == m,
            },
    {
        let ParseState { mut arena, parent, lineno, module_name, syntax } = self;
        let count = arena.count();
        if matches!(syntax, Syntax::Clusterfile) && count <= 2 {
            let mut message = String::from_str("Module ");
            message.append(module_name.as_str());
            message.append(" must contain at least one expression.");
            return Err(Error::parse_error(0, message));
        }
        let last = NodeId::new(count - 1);
        let last_is_step = match arena.get_node(&last).data.node_type {
            NodeType::Step => true,
            _ => false,
        };
        if last_is_step {
            arena.unlink(&last);
            arena.remove_node(&last);
            proof {
                assert(arena@ =~= unlink(self@.arena, (count - 1) as nat).drop_last());
            }
        }
        Ok(arena)
    }
}

/// The shape that parsing keeps: the first node has no parent, every child
/// link points to a later node of the arena, and every step hangs below the
/// first node.
pub open spec fn tree_shaped(a: ArenaView) -> bool {
    &&& a.len() > 0
    &&& a[0].parent is None
    &&& forall|i: int, k: int|
        0 <= i < a.len() && 0 <= k < a[i].children.len() ==> i < #[trigger] a[i].children[k]
            < a.len()
    &&& forall|j: int|
        1 <= j < a.len() && #[trigger] a[j].data.node_type == NodeType::Step ==> a[0].children.contains(
            j as nat,
        )
}

proof fn lemma_attach_shape(a: ArenaView, p: nat, v: NodeDataView)
    requires
        tree_shaped(a),
        p < a.len(),
        v.node_type == NodeType::Step ==> p == 0,
    ensures
        tree_shaped(spec_make_parent(a.push(fresh_node(v)), p, a.len())),
{
    let b = spec_make_parent(a.push(fresh_node(v)), p, a.len());
    let n = a.len() as int;
    assert forall|i: int, k: int|
        0 <= i < b.len() && 0 <= k < b[i].children.len() implies i < #[trigger] b[i].children[k]
            < b.len() by {
        if i == p {
            if k < a[i].children.len() {
                assert(b[i].children[k] == a[i].children[k]);
            }
        } else if i < n {
            assert(b[i].children[k] == a[i].children[k]);
        }
    }
    assert forall|j: int|
        1 <= j < b.len() && #[trigger] b[j].data.node_type == NodeType::Step implies b[0].children.contains(
            j as nat,
        ) by {
        if j < n {
            assert(a[j].data.node_type == NodeType::Step);
            let w = choose|w: int| 0 <= w < a[0].children.len() && a[0].children[w] == j as nat;
            assert(b[0].children[w] == j as nat);
        } else {
            assert(b[0].children[b[0].children.len() - 1] == j as nat);
        }
    }
}

proof fn lemma_detached_shape(a: ArenaView, v: NodeDataView)
    requires
        tree_shaped(a),
        v.node_type != NodeType::Step,
    ensures
        tree_shaped(a.push(fresh_node(v))),
{
    let b = a.push(fresh_node(v));
    assert forall|i: int, k: int|
        0 <= i < b.len() && 0 <= k < b[i].children.len() implies i < #[trigger] b[i].children[k]
            < b.len() by {
        assert(b[i].children[k] == a[i].children[k]);
    }
    assert forall|j: int|
        1 <= j < b.len() && #[trigger] b[j].data.node_type == NodeType::Step implies b[0].children.contains(
            j as nat,
        ) by {
        assert(a[j].data.node_type == NodeType::Step);
    }
}

/// A parse starts from a tree-shaped arena, with a step as its current node.
pub proof fn initial_tree_shaped(module_name: Seq<char>, syntax: Syntax)
    ensures
        tree_shaped(initial_arena(module_name)),
        state_ok(initial_state(module_name, syntax)),
        initial_state(module_name, syntax).arena[1].data.node_type == NodeType::Step,
{
    let a = initial_arena(module_name);
    assert(a[0].children =~= seq![1nat]);
    assert(a[1].children =~= Seq::<nat>::empty());
    assert(a[0].children[0] == 1nat);
}

/// Feeding a line to a parse keeps its arena tree-shaped: every expression
/// hangs below the current step, every new step below the module node.
pub proof fn feed_keeps_tree_shape(s: ParseStateView, raw: Seq<char>)
    requires
        state_ok(s),
        tree_shaped(s.arena),
        s.parent > 0,
    ensures
        match spec_feed(s, raw) {
            Fed::Next(t) => tree_shaped(t.arena) && t.parent > 0,
            Fed::Load(t, _) => tree_shaped(t.arena) && t.parent > 0,
            Fed::Failed(_, _) => true,
        },
{
    let n = (s.lineno + 1) as u32;
    if raw == seq!['\n'] {
        if !ends_with_step(s.arena) {
            lemma_attach_shape(s.arena, 0, data_view(NodeType::Step, n, None));
        }
    } else {
        let kind = classify(trimmed(raw), s.syntax);
        match kind {
            LineKind::Attached(t, v) => {
                assert(t != NodeType::Step);
                lemma_attach_shape(s.arena, s.parent, data_view(t, n, Some(v)));
            },
            LineKind::Detached(t, v) => {
                assert(t != NodeType::Step);
                lemma_detached_shape(s.arena, data_view(t, n, Some(v)));
            },
            _ => {},
        }
    }
}

/// Expressions hang below steps: while the node that a parse attaches
/// expressions to is a step, it stays a step after any line, and each node
/// that a line adds is either a step below the first node, which becomes the
/// current node, or an expression below the current step, or (a comment of
/// the basic syntax) below nothing.
pub proof fn expressions_below_steps(s: ParseStateView, raw: Seq<char>)
    requires
        state_ok(s),
        s.arena[s.parent as int].data.node_type == NodeType::Step,
    ensures
        match spec_feed(s, raw) {
            Fed::Next(t) => {
                &&& t.arena[t.parent as int].data.node_type == NodeType::Step
                &&& forall|j: int|
                    s.arena.len() <= j < t.arena.len() ==> {
                        ||| (#[trigger] t.arena[j]).data.node_type == NodeType::Step && t.arena[j].parent
                            == Some(0nat) && t.parent == j
                        ||| t.arena[j].data.node_type != NodeType::Step && t.arena[j].parent == Some(
                            t.parent,
                        )
                        ||| t.arena[j].data.node_type != NodeType::Step && t.arena[j].parent is None
                    }
            },
            Fed::Load(t, _) => t.arena == s.arena && t.parent == s.parent,
            Fed::Failed(_, _) => true,
        },
{
    let n = (s.lineno + 1) as u32;
    let len = s.arena.len() as int;
    if raw == seq!['\n'] {
        if !ends_with_step(s.arena) {
            let a1 = s.arena.push(fresh_node(data_view(NodeType::Step, n, None)));
            let a2 = spec_make_parent(a1, 0, s.arena.len());
            assert(a2[len].data == a1[len].data);
        }
    } else {
        let kind = classify(trimmed(raw), s.syntax);
        match kind {
            LineKind::Attached(t, v) => {
                assert(t != NodeType::Step);
                let a1 = s.arena.push(fresh_node(data_view(t, n, Some(v))));
                let a2 = spec_make_parent(a1, s.parent, s.arena.len());
                assert(a2[s.parent as int].data == s.arena[s.parent as int].data);
            },
            LineKind::Detached(t, v) => {
                assert(t != NodeType::Step);
            },
            _ => {},
        }
    }
}

/// Attaching a module keeps the current node of the parse and what it
/// holds; the module's root, placed right after the old nodes, hangs below
/// it as its last child, and the module's other nodes follow with their
/// values.
pub proof fn attach_keeps_current_node(s: ParseStateView, module: Seq<NodeView<NodeDataView>>)
    requires
        state_ok(s),
        module.len() > 0,
    ensures
        spec_attach(s, module).parent == s.parent,
        spec_attach(s, module).arena[s.parent as int].data == s.arena[s.parent as int].data,
        spec_attach(s, module).arena.len() == s.arena.len() + module.len(),
        spec_attach(s, module).arena[s.parent as int].children == s.arena[s.parent as int].children.push(
            s.arena.len(),
        ),
        spec_attach(s, module).arena[s.arena.len() as int].parent == Some(s.parent),
        forall|j: int|
            0 <= j < module.len() ==> #[trigger] spec_attach(s, module).arena[s.arena.len() + j].data
                == module[j].data,
{
    let a = s.arena + shift(module, s.arena.len());
    assert forall|j: int| 0 <= j < module.len() implies #[trigger] spec_attach(s, module).arena[s.arena.len() + j].data
        == module[j].data by {
        assert(a[s.arena.len() + j] == shift(module, s.arena.len())[j]);
    }
}

/// A tree-shaped arena can be shown.
pub proof fn tree_shaped_renderable(a: ArenaView)
    requires
        tree_shaped(a),
    ensures
        renderable(a),
{
    assert(root_of(a, 0, a.len()) == 0);
    lemma_forward_reach(a, 0);
}

/// The arena a parse hands out can be shown: a trailing step is taken out
/// together with the root's link to it, so every link still points to a
/// later node of the arena.
pub proof fn finished_parse_renderable(s: ParseStateView)
    requires
        state_ok(s),
        tree_shaped(s.arena),
        spec_finish(s) is Ok,
    ensures
        renderable(spec_finish(s)->Ok_0),
{
    let a = s.arena;
    if ends_with_step(a) {
        let x = (a.len() - 1) as nat;
        let u = unlink(a, x);
        let b = u.drop_last();
        assert forall|i: int, k: int|
            0 <= i < b.len() && 0 <= k < b[i].children.len() implies i < #[trigger] b[i].children[k]
                < b.len() by {
            lemma_without_id(a[i].children, x);
            assert(b[i] == u[i]);
            assert(b[i].children == crate::arena::without_id(a[i].children, x));
            let c = b[i].children[k];
            let w = choose|w: int| 0 <= w < a[i].children.len() && a[i].children[w] == c;
            assert(i < a[i].children[w] < a.len());
        }
        assert(b[0].parent is None);
        assert(root_of(b, 0, b.len()) == 0);
        lemma_forward_reach(b, 0);
    } else {
        tree_shaped_renderable(a);
    }
}

/// A run of blank lines starts one step: a second blank line after a first
/// changes nothing but the line number.
pub proof fn blank_lines_make_one_step(s: ParseStateView)
    requires
        state_ok(s),
        s.lineno + 1 < u32::MAX,
    ensures
        spec_feed(s, seq!['\n']) matches Fed::Next(t) && spec_feed(t, seq!['\n']) matches Fed::Next(u)
            && u.arena == t.arena && u.parent == t.parent && u.lineno == t.lineno + 1,
{
    if let Fed::Next(t) = spec_feed(s, seq!['\n']) {
        if !ends_with_step(s.arena) {
            let a1 = s.arena.push(fresh_node(data_view(NodeType::Step, (s.lineno + 1) as u32, None)));
            let a2 = spec_make_parent(a1, 0, s.arena.len());
            assert(a2[a2.len() - 1].data == a1[a1.len() - 1].data);
        }
        assert(ends_with_step(t.arena));
    }
}

} // verus!

verus! {

/// Each keyword names its own kind of line, whatever follows it and
/// whichever character separates it: in the clusterfile syntax `cmd X`,
/// `fmd X`, `cpy X` and `arg X` become a Command, FallbackCommand, Copy and
/// Argument node carrying `X`, below the current step, and `mod X` asks for
/// the module in file `X`. In the basic syntax `cmd X` and `fmd X` are both
/// commands, `arg X` an argument, `mod X` a module, and `cpy` is unknown.
pub proof fn keywords_name_their_nodes(c: char, t: Seq<char>)
    ensures
        classify("cmd"@ + seq![c] + t, Syntax::Clusterfile) == LineKind::Attached(NodeType::Command, t),
        classify("fmd"@ + seq![c] + t, Syntax::Clusterfile) == LineKind::Attached(
            NodeType::FallbackCommand,
            t,
        ),
        classify("cpy"@ + seq![c] + t, Syntax::Clusterfile) == LineKind::Attached(NodeType::Copy, t),
        classify("arg"@ + seq![c] + t, Syntax::Clusterfile) == LineKind::Attached(NodeType::Argument, t),
        classify("mod"@ + seq![c] + t, Syntax::Clusterfile) == LineKind::Module(t),
        classify("cmd"@ + seq![c] + t, Syntax::Basic) == LineKind::Attached(NodeType::Command, t),
        classify("fmd"@ + seq![c] + t, Syntax::Basic) == LineKind::Attached(NodeType::Command, t),
        classify("arg"@ + seq![c] + t, Syntax::Basic) == LineKind::Attached(NodeType::Argument, t),
        classify("mod"@ + seq![c] + t, Syntax::Basic) == LineKind::Module(t),
        classify("cpy"@ + seq![c] + t, Syntax::Basic) == LineKind::Invalid("cpy"@),
{
    reveal_strlit("cmd");
    reveal_strlit("fmd");
    reveal_strlit("cpy");
    reveal_strlit("arg");
    reveal_strlit("mod");
    let kws = seq!["cmd"@, "fmd"@, "cpy"@, "arg"@, "mod"@];
    assert forall|i: int| 0 <= i < 5 implies {
        let line = #[trigger] kws[i] + seq![c] + t;
        &&& keyword(line) == kws[i]
        &&& argument(line) == t
        &&& !is_comment(line)
    } by {
        let line = kws[i] + seq![c] + t;
        assert(kws[i].len() == 3);
        assert(line.subrange(0, 3) =~= kws[i]);
        assert(line.subrange(4, line.len() as int) =~= t);
        assert(line[0] == kws[i][0]);
    }
    assert(kws[0] == "cmd"@);
    assert(kws[1] == "fmd"@);
    assert(kws[2] == "cpy"@);
    assert(kws[3] == "arg"@);
    assert(kws[4] == "mod"@);
    assert("cpy"@[1] == 'p' && "cmd"@[1] == 'm' && "fmd"@[0] == 'f' && "arg"@[0] == 'a' && "mod"@[0] == 'm');
    assert("cpy"@ != "cmd"@ && "cpy"@ != "fmd"@ && "cpy"@ != "arg"@ && "cpy"@ != "mod"@);
}

/// A line that begins with `#` is a comment carrying the rest of the line:
/// below the current step in the clusterfile syntax, below nothing in the
/// basic syntax.
pub proof fn hash_lines_are_comments(t: Seq<char>)
    ensures
        classify("#"@ + t, Syntax::Clusterfile) == LineKind::Attached(NodeType::Comment, t),
        classify("#"@ + t, Syntax::Basic) == LineKind::Detached(NodeType::Comment, t),
{
    reveal_strlit("#");
    reveal_strlit("cmd");
    reveal_strlit("fmd");
    reveal_strlit("cpy");
    reveal_strlit("arg");
    reveal_strlit("mod");
    let line = "#"@ + t;
    assert(line[0] == '#');
    assert(line.subrange(1, line.len() as int) =~= t);
    let kw = keyword(line);
    assert(kw.len() > 0 ==> kw[0] == '#');
    assert(kw.len() > 0);
    assert(kw[0] == '#');
    assert("cmd"@[0] == 'c' && "fmd"@[0] == 'f' && "cpy"@[0] == 'c' && "arg"@[0] == 'a' && "mod"@[0] == 'm');
    assert(kw != "cmd"@ && kw != "fmd"@ && kw != "cpy"@ && kw != "arg"@ && kw != "mod"@);
    assert(is_comment(line));
    assert(comment_text(line) == t);
}

/// Feeding the line `<kw> X` (with its line break) to a clusterfile parse
/// adds one node carrying `X` as the new last child of the current step: a
/// Copy node for `cpy`, a Command node for `cmd`, a FallbackCommand node for
/// `fmd` and an Argument node for `arg`, numbered with the next line.
pub proof fn fed_expression_lines(s: ParseStateView, t: Seq<char>)
    requires
        state_ok(s),
        s.syntax == Syntax::Clusterfile,
        s.lineno < u32::MAX,
        t.len() > 0,
        !is_white_space(t.last()),
    ensures
        ({
            let n = s.arena.len();
            let kws = seq!["cpy "@, "cmd "@, "fmd "@, "arg "@];
            let tys = seq![NodeType::Copy, NodeType::Command, NodeType::FallbackCommand, NodeType::Argument];
            forall|i: int|
                0 <= i < 4 ==> ((#[trigger] spec_feed(s, kws[i] + t + "\n"@)) matches Fed::Next(u) && {
                    &&& u.arena.len() == n + 1
                    &&& u.arena[n as int].data == data_view(tys[i], (s.lineno + 1) as u32, Some(t))
                    &&& u.arena[n as int].parent == Some(s.parent)
                    &&& u.arena[s.parent as int].children == s.arena[s.parent as int].children.push(n)
                    &&& u.parent == s.parent
                })
        }),
{
    reveal_strlit("cpy ");
    reveal_strlit("cmd ");
    reveal_strlit("fmd ");
    reveal_strlit("arg ");
    reveal_strlit("cpy");
    reveal_strlit("cmd");
    reveal_strlit("fmd");
    reveal_strlit("arg");
    reveal_strlit("\n");
    keywords_name_their_nodes(' ', t);
    let kws = seq!["cpy "@, "cmd "@, "fmd "@, "arg "@];
    let kw3 = seq!["cpy"@, "cmd"@, "fmd"@, "arg"@];
    let tys = seq![NodeType::Copy, NodeType::Command, NodeType::FallbackCommand, NodeType::Argument];
    assert forall|i: int|
        0 <= i < 4 implies ((#[trigger] spec_feed(s, kws[i] + t + "\n"@)) matches Fed::Next(u) && {
            &&& u.arena.len() == s.arena.len() + 1
            &&& u.arena[s.arena.len() as int].data == data_view(tys[i], (s.lineno + 1) as u32, Some(t))
            &&& u.arena[s.arena.len() as int].parent == Some(s.parent)
            &&& u.arena[s.parent as int].children == s.arena[s.parent as int].children.push(s.arena.len())
            &&& u.parent == s.parent
        }) by {
        let line = kws[i] + t;
        let raw = line + "\n"@;
        assert(kws[i] =~= kw3[i] + seq![' ']);
        assert(line =~= kw3[i] + seq![' '] + t);
        assert(raw.len() > 1);
        assert(raw != seq!['\n']);
        assert(line[0] == kws[i][0]);
        assert(line.last() == t.last());
        assert("\n"@[0] == '\n');
        assert(is_white_space('\n'));
        assert(raw =~= Seq::<char>::empty() + line + "\n"@);
        lemma_trimmed_padded(Seq::<char>::empty(), line, "\n"@);
        assert(trimmed(raw) == line);
        assert(classify(line, Syntax::Clusterfile) == LineKind::Attached(tys[i], t));
        let n = s.arena.len();
        let a1 = s.arena.push(fresh_node(data_view(tys[i], (s.lineno + 1) as u32, Some(t))));
        let a2 = spec_make_parent(a1, s.parent, n);
        assert(a2[n as int].data == a1[n as int].data);
    }
}

} // verus!
