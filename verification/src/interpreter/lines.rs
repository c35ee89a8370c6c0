//! The interpreter's input lines: a line that starts with `:` holds commands,
//! any other line is QASM source.
use vstd::prelude::*;
use crate::interpreter::int_tree;
use crate::text::{concat3, debug_str, quoted};
use crate::interpreter::{chars_of, eq_lit, parse_usize, parse_usize_spec, split_words, strings_view, words};

verus! {

/// Why a command line was refused.
#[derive(Debug, Clone, PartialEq)]
pub enum Error {
    UnknownCommand(String),
    UnspecifiedPath,
    UnspecifiedInt,
    TagError(int_tree::Error),
    ExistedTagName(String),
    TagIsParent(String),
    TagIsHead(String),
    WrongTagName(String),
}

/// The mathematical value of an [`Error`].
pub enum ErrorView {
    UnknownCommand(Seq<char>),
    UnspecifiedPath,
    UnspecifiedInt,
    TagError(int_tree::ErrorView),
    ExistedTagName(Seq<char>),
    TagIsParent(Seq<char>),
    TagIsHead(Seq<char>),
    WrongTagName(Seq<char>),
}

impl View for Error {
    type V = ErrorView;

    open spec fn view(&self) -> ErrorView {
        match self {
            Error::UnknownCommand(s) => ErrorView::UnknownCommand(s@),
            Error::UnspecifiedPath => ErrorView::UnspecifiedPath,
            Error::UnspecifiedInt => ErrorView::UnspecifiedInt,
            Error::TagError(e) => ErrorView::TagError(e@),
            Error::ExistedTagName(s) => ErrorView::ExistedTagName(s@),
            Error::TagIsParent(s) => ErrorView::TagIsParent(s@),
            Error::TagIsHead(s) => ErrorView::TagIsHead(s@),
            Error::WrongTagName(s) => ErrorView::WrongTagName(s@),
        }
    }
}

impl ErrorView {
    /// The text that reports the error.
    pub open spec fn message(self) -> Seq<char> {
        match self {
            ErrorView::UnknownCommand(s) => "Unknown command: "@ + s,
            ErrorView::UnspecifiedPath => "Path to load file must be specified"@,
            ErrorView::UnspecifiedInt => "Integer must be specified for loop"@,
            ErrorView::TagError(e) => "Tag error: "@ + e.message(),
            ErrorView::ExistedTagName(s) => "Tag name "@ + debug_str(s) + " already exists"@,
            ErrorView::TagIsParent(s) => "Tag "@ + debug_str(s) + " is parent and cannot be removed"@,
            ErrorView::TagIsHead(s) => "Tag "@ + debug_str(s) + " is head and cannot be removed"@,
            ErrorView::WrongTagName(s) => "There's no tag "@ + debug_str(s),
        }
    }
}

impl Error {
    /// The text that reports the error.
    pub fn message(&self) -> (s: String)
        ensures
            s@ == self@.message(),
    {
        proof {
            reveal_strlit("");
        }
        match self {
            Error::UnknownCommand(t) => concat3("Unknown command: ", t.as_str(), ""),
            Error::UnspecifiedPath => concat3("Path to load file must be specified", "", ""),
            Error::UnspecifiedInt => concat3("Integer must be specified for loop", "", ""),
            Error::TagError(e) => {
                let m = e.message();
                concat3("Tag error: ", m.as_str(), "")
            },
            Error::ExistedTagName(t) => {
                let q = quoted(t.as_str());
                concat3("Tag name ", q.as_str(), " already exists")
            },
            Error::TagIsParent(t) => {
                let q = quoted(t.as_str());
                concat3("Tag ", q.as_str(), " is parent and cannot be removed")
            },
            Error::TagIsHead(t) => {
                let q = quoted(t.as_str());
                concat3("Tag ", q.as_str(), " is head and cannot be removed")
            },
            Error::WrongTagName(t) => {
                let q = quoted(t.as_str());
                concat3("There's no tag ", q.as_str(), "")
            },
        }
    }

    /// The error of a refused `tag` subcommand.
    pub fn from(e: int_tree::Error) -> (r: Error)
        ensures
            r@ == ErrorView::TagError(e@),
    {
        Error::TagError(e)
    }
}

/// The reference text of the command line.
pub const HELP: &'static str = "QVNT Interpreter CLI

USAGE:
    : [COMMANDS...]

COMMANDS:
    loop|l N    Repeat following commands N time
    tag TAG     Create TAG with current state
    to TAG      Swap current state to TAG's state
    tags        Show the list of previously created tags
    quit|q      Exit interpreter
    class|c     Show state of classical registers
    polar       Show state of quantum registers in polar form
    prob|p      Show state of quantum registers in probability form
    ops|o       Snow current quantum operations queue
    go|g        Start modulating quantum computer
    reset|r     Clear current state
    names|n     Show aliases for quantum and classical bits
    load FILE   Load state from FILE according to QASM language script
    help|h|?    Show this reference
";

/// One command.
#[derive(Clone, Debug, PartialEq)]
pub enum Command {
    Loop(usize),
    Tags(int_tree::Command),
    Go,
    Load(String),
    Class,
    Polar,
    Probs,
    Ops,
    Names,
    Help,
    Quit,
}

/// The mathematical value of a [`Command`].
pub enum CommandView {
    Loop(usize),
    Tags(int_tree::CommandView),
    Go,
    Load(Seq<char>),
    Class,
    Polar,
    Probs,
    Ops,
    Names,
    Help,
    Quit,
}

impl View for Command {
    type V = CommandView;

    open spec fn view(&self) -> CommandView {
        match self {
            Command::Loop(n) => CommandView::Loop(*n),
            Command::Tags(c) => CommandView::Tags(c@),
            Command::Go => CommandView::Go,
            Command::Load(s) => CommandView::Load(s@),
            Command::Class => CommandView::Class,
            Command::Polar => CommandView::Polar,
            Command::Probs => CommandView::Probs,
            Command::Ops => CommandView::Ops,
            Command::Names => CommandView::Names,
            Command::Help => CommandView::Help,
            Command::Quit => CommandView::Quit,
        }
    }
}

impl Command {
    /// A copy of the command.
    pub(crate) fn copied(&self) -> (r: Command)
        ensures
            r@ == self@,
    {
        match self {
            Command::Loop(n) => Command::Loop(*n),
            Command::Tags(c) => Command::Tags(c.copied()),
            Command::Go => Command::Go,
            Command::Load(t) => Command::Load(t.clone()),
            Command::Class => Command::Class,
            Command::Polar => Command::Polar,
            Command::Probs => Command::Probs,
            Command::Ops => Command::Ops,
            Command::Names => Command::Names,
            Command::Help => Command::Help,
            Command::Quit => Command::Quit,
        }
    }
}

/// An input line.
#[derive(Clone, Debug, PartialEq)]
pub enum Line {
    Commands(Vec<Command>),
    Qasm,
}

/// The mathematical value of a [`Line`].
pub enum LineView {
    Commands(Seq<CommandView>),
    Qasm,
}

/// The views of a list of commands.
pub open spec fn commands_view(v: Seq<Command>) -> Seq<CommandView> {
    v.map_values(|c: Command| c@)
}

impl View for Line {
    type V = LineView;

    open spec fn view(&self) -> LineView {
        match self {
            Line::Commands(c) => LineView::Commands(commands_view(c@)),
            Line::Qasm => LineView::Qasm,
        }
    }
}

/// `cmds` in front of the commands of `r`, or the error of `r`.
pub open spec fn prepend(
    cmds: Seq<CommandView>,
    r: Result<Seq<CommandView>, ErrorView>,
) -> Result<Seq<CommandView>, ErrorView> {
    match r {
        Ok(rest) => Ok(cmds + rest),
        Err(e) => Err(e),
    }
}

/// Prepending twice is prepending the concatenation.
pub proof fn lemma_prepend_twice(
    a: Seq<CommandView>,
    b: Seq<CommandView>,
    r: Result<Seq<CommandView>, ErrorView>,
)
    ensures
        prepend(a, prepend(b, r)) == prepend(a + b, r),
{
    if let Ok(t) = r {
        assert(a + (b + t) =~= (a + b) + t);
    }
}

/// A command without argument, by its keyword.
pub open spec fn simple_command(c: Seq<char>) -> Option<CommandView> {
    if c == "class"@ || c == "c"@ {
        Some(CommandView::Class)
    } else if c == "polar"@ {
        Some(CommandView::Polar)
    } else if c == "prob"@ || c == "p"@ {
        Some(CommandView::Probs)
    } else if c == "ops"@ || c == "o"@ {
        Some(CommandView::Ops)
    } else if c == "go"@ || c == "g"@ {
        Some(CommandView::Go)
    } else if c == "names"@ || c == "n"@ {
        Some(CommandView::Names)
    } else if c == "help"@ || c == "h"@ || c == "?"@ {
        Some(CommandView::Help)
    } else if c == "tags"@ {
        Some(CommandView::Tags(int_tree::CommandView::List))
    } else if c == "reset"@ || c == "r"@ {
        Some(CommandView::Tags(int_tree::CommandView::Reset))
    } else {
        None
    }
}

/// Whether `c` names a subcommand of `tag`.
pub open spec fn tag_keyword(c: Seq<char>) -> bool {
    c == "ls"@ || c == "mk"@ || c == "rm"@ || c == "ch"@ || c == "reset"@ || c == "help"@ || c
        == "h"@ || c == "?"@
}

/// The commands that the words `w` spell, or why they spell none.
pub open spec fn parse_spec(w: Seq<Seq<char>>) -> Result<Seq<CommandView>, ErrorView>
    decreases w.len(),
{
    if w.len() == 0 {
        Ok(seq![])
    } else {
        let c = w[0];
        if c == "loop"@ || c == "l"@ {
            if w.len() > 1 && parse_usize_spec(w[1]) is Some {
                prepend(seq![CommandView::Loop(parse_usize_spec(w[1])->0)], parse_spec(w.skip(2)))
            } else {
                Err(ErrorView::UnspecifiedInt)
            }
        } else if c == "tag"@ && w.len() > 1 && !tag_keyword(w[1]) {
            prepend(
                seq![CommandView::Tags(int_tree::CommandView::Create(w[1]))],
                parse_spec(w.skip(2)),
            )
        } else if c == "to"@ {
            if w.len() > 1 {
                prepend(
                    seq![CommandView::Tags(int_tree::CommandView::Checkout(w[1]))],
                    parse_spec(w.skip(2)),
                )
            } else {
                Err(ErrorView::TagError(int_tree::ErrorView::UnspecifiedTag))
            }
        } else if c == "tag"@ {
            match int_tree::parse_command_spec(w.drop_first()) {
                Ok((t, n)) => prepend(
                    seq![CommandView::Tags(t)],
                    parse_spec(w.drop_first().skip(n as int)),
                ),
                Err(e) => Err(ErrorView::TagError(e)),
            }
        } else if c == "exit"@ || c == "quit"@ || c == "q"@ {
            Ok(seq![CommandView::Quit])
        } else if c == "load"@ || c == "file"@ || c == "qasm"@ {
            if w.len() > 1 {
                prepend(seq![CommandView::Load(w[1])], parse_spec(w.skip(2)))
            } else {
                Err(ErrorView::UnspecifiedPath)
            }
        } else if simple_command(c) is Some {
            prepend(seq![simple_command(c)->0], parse_spec(w.drop_first()))
        } else {
            Err(ErrorView::UnknownCommand(c))
        }
    }
}

/// The keyword table of the help text: a command line of one word reads as
/// the one command that the help text gives that word, and only those words
/// read as it: `class|c`, `polar`, `prob|p`, `ops|o`, `go|g`, `names|n`,
/// `help|h|?`, `quit|q` (and `exit`), `tags` (and `tag` alone) to list the tags,
/// and `reset|r`.
#[verifier::rlimit(60)]
pub proof fn lemma_keywords(w: Seq<char>)
    ensures
        (parse_spec(seq![w]) == Ok::<Seq<CommandView>, ErrorView>(seq![CommandView::Class])) <==> (w
            == "class"@ || w == "c"@),
        (parse_spec(seq![w]) == Ok::<Seq<CommandView>, ErrorView>(seq![CommandView::Polar])) <==> w
            == "polar"@,
        (parse_spec(seq![w]) == Ok::<Seq<CommandView>, ErrorView>(seq![CommandView::Probs])) <==> (w
            == "prob"@ || w == "p"@),
        (parse_spec(seq![w]) == Ok::<Seq<CommandView>, ErrorView>(seq![CommandView::Ops])) <==> (w
            == "ops"@ || w == "o"@),
        (parse_spec(seq![w]) == Ok::<Seq<CommandView>, ErrorView>(seq![CommandView::Go])) <==> (w
            == "go"@ || w == "g"@),
        (parse_spec(seq![w]) == Ok::<Seq<CommandView>, ErrorView>(seq![CommandView::Names])) <==> (w
            == "names"@ || w == "n"@),
        (parse_spec(seq![w]) == Ok::<Seq<CommandView>, ErrorView>(seq![CommandView::Help])) <==> (w
            == "help"@ || w == "h"@ || w == "?"@),
        (parse_spec(seq![w]) == Ok::<Seq<CommandView>, ErrorView>(seq![CommandView::Quit])) <==> (w
            == "quit"@ || w == "q"@ || w == "exit"@),
        (parse_spec(seq![w]) == Ok::<Seq<CommandView>, ErrorView>(
            seq![CommandView::Tags(int_tree::CommandView::List)],
        )) <==> (w == "tags"@ || w == "tag"@),
        (parse_spec(seq![w]) == Ok::<Seq<CommandView>, ErrorView>(
            seq![CommandView::Tags(int_tree::CommandView::Reset)],
        )) <==> (w == "reset"@ || w == "r"@),
{
    reveal_strlit("class");
    reveal_strlit("c");
    reveal_strlit("polar");
    reveal_strlit("prob");
    reveal_strlit("p");
    reveal_strlit("ops");
    reveal_strlit("o");
    reveal_strlit("go");
    reveal_strlit("g");
    reveal_strlit("names");
    reveal_strlit("n");
    reveal_strlit("help");
    reveal_strlit("h");
    reveal_strlit("?");
    reveal_strlit("quit");
    reveal_strlit("q");
    reveal_strlit("exit");
    reveal_strlit("tags");
    reveal_strlit("tag");
    reveal_strlit("reset");
    reveal_strlit("r");
    reveal_strlit("loop");
    reveal_strlit("l");
    reveal_strlit("to");
    reveal_strlit("load");
    reveal_strlit("file");
    reveal_strlit("qasm");
    assert("class"@.len() == 5 && "class"@[0] == 'c' && "class"@[1] == 'l' && "class"@[2] == 'a');
    assert("c"@.len() == 1 && "c"@[0] == 'c');
    assert("polar"@.len() == 5 && "polar"@[0] == 'p' && "polar"@[1] == 'o' && "polar"@[2] == 'l');
    assert("prob"@.len() == 4 && "prob"@[0] == 'p' && "prob"@[1] == 'r' && "prob"@[2] == 'o');
    assert("p"@.len() == 1 && "p"@[0] == 'p');
    assert("ops"@.len() == 3 && "ops"@[0] == 'o' && "ops"@[1] == 'p' && "ops"@[2] == 's');
    assert("o"@.len() == 1 && "o"@[0] == 'o');
    assert("go"@.len() == 2 && "go"@[0] == 'g' && "go"@[1] == 'o');
    assert("g"@.len() == 1 && "g"@[0] == 'g');
    assert("names"@.len() == 5 && "names"@[0] == 'n' && "names"@[1] == 'a' && "names"@[2] == 'm');
    assert("n"@.len() == 1 && "n"@[0] == 'n');
    assert("help"@.len() == 4 && "help"@[0] == 'h' && "help"@[1] == 'e' && "help"@[2] == 'l');
    assert("h"@.len() == 1 && "h"@[0] == 'h');
    assert("?"@.len() == 1 && "?"@[0] == '?');
    assert("quit"@.len() == 4 && "quit"@[0] == 'q' && "quit"@[1] == 'u' && "quit"@[2] == 'i');
    assert("q"@.len() == 1 && "q"@[0] == 'q');
    assert("exit"@.len() == 4 && "exit"@[0] == 'e' && "exit"@[1] == 'x' && "exit"@[2] == 'i');
    assert("tags"@.len() == 4 && "tags"@[0] == 't' && "tags"@[1] == 'a' && "tags"@[2] == 'g');
    assert("tag"@.len() == 3 && "tag"@[0] == 't' && "tag"@[1] == 'a' && "tag"@[2] == 'g');
    assert("reset"@.len() == 5 && "reset"@[0] == 'r' && "reset"@[1] == 'e' && "reset"@[2] == 's');
    assert("r"@.len() == 1 && "r"@[0] == 'r');
    assert("loop"@.len() == 4 && "loop"@[0] == 'l' && "loop"@[1] == 'o' && "loop"@[2] == 'o');
    assert("l"@.len() == 1 && "l"@[0] == 'l');
    assert("to"@.len() == 2 && "to"@[0] == 't' && "to"@[1] == 'o');
    assert("load"@.len() == 4 && "load"@[0] == 'l' && "load"@[1] == 'o' && "load"@[2] == 'a');
    assert("file"@.len() == 4 && "file"@[0] == 'f' && "file"@[1] == 'i' && "file"@[2] == 'l');
    assert("qasm"@.len() == 4 && "qasm"@[0] == 'q' && "qasm"@[1] == 'a' && "qasm"@[2] == 's');
    let ws = seq![w];
    let e = Seq::<Seq<char>>::empty();
    assert(ws.drop_first() =~= e);
    assert(ws.drop_first().skip(0) =~= e);
    assert(parse_spec(e) == Ok::<Seq<CommandView>, ErrorView>(seq![]));
    assert(int_tree::parse_command_spec(e) == Ok::<(int_tree::CommandView, nat), int_tree::ErrorView>(
        (int_tree::CommandView::List, 0),
    ));
    let k: Option<CommandView> = if w == "loop"@ || w == "l"@ || w == "to"@ {
        None
    } else if w == "tag"@ {
        Some(CommandView::Tags(int_tree::CommandView::List))
    } else if w == "exit"@ || w == "quit"@ || w == "q"@ {
        Some(CommandView::Quit)
    } else if w == "load"@ || w == "file"@ || w == "qasm"@ {
        None
    } else {
        simple_command(w)
    };
    if let Some(c) = k {
        assert(seq![c] + Seq::<CommandView>::empty() =~= seq![c]);
        assert(parse_spec(ws) == Ok::<Seq<CommandView>, ErrorView>(seq![c]));
        lemma_one_command_eq(CommandView::Class, c);
        lemma_one_command_eq(CommandView::Polar, c);
        lemma_one_command_eq(CommandView::Probs, c);
        lemma_one_command_eq(CommandView::Ops, c);
        lemma_one_command_eq(CommandView::Go, c);
        lemma_one_command_eq(CommandView::Names, c);
        lemma_one_command_eq(CommandView::Help, c);
        lemma_one_command_eq(CommandView::Quit, c);
        lemma_one_command_eq(CommandView::Tags(int_tree::CommandView::List), c);
        lemma_one_command_eq(CommandView::Tags(int_tree::CommandView::Reset), c);
    } else {
        assert(parse_spec(ws) is Err);
    }
}

proof fn lemma_one_command_eq(x: CommandView, y: CommandView)
    ensures
        (Ok::<Seq<CommandView>, ErrorView>(seq![x]) == Ok::<Seq<CommandView>, ErrorView>(seq![y]))
            <==> x == y,
{
    if seq![x] == seq![y] {
        assert(seq![x][0] == seq![y][0]);
    }
}

/// What reading the line `s` gives: its commands when it starts with `:`, else QASM.
pub open spec fn from_str_spec(s: Seq<char>) -> Result<LineView, ErrorView> {
    if s.len() > 0 && s[0] == ':' {
        match parse_spec(words(s.skip(1))) {
            Ok(c) => Ok(LineView::Commands(c)),
            Err(e) => Err(e),
        }
    } else {
        Ok(LineView::Qasm)
    }
}

fn simple(t: &str) -> (r: Option<Command>)
    ensures
        r is Some <==> simple_command(t@) is Some,
        r matches Some(c) ==> c@ == simple_command(t@)->0,
{
    if eq_lit(t, "class") || eq_lit(t, "c") {
        Some(Command::Class)
    } else if eq_lit(t, "polar") {
        Some(Command::Polar)
    } else if eq_lit(t, "prob") || eq_lit(t, "p") {
        Some(Command::Probs)
    } else if eq_lit(t, "ops") || eq_lit(t, "o") {
        Some(Command::Ops)
    } else if eq_lit(t, "go") || eq_lit(t, "g") {
        Some(Command::Go)
    } else if eq_lit(t, "names") || eq_lit(t, "n") {
        Some(Command::Names)
    } else if eq_lit(t, "help") || eq_lit(t, "h") || eq_lit(t, "?") {
        Some(Command::Help)
    } else if eq_lit(t, "tags") {
        Some(Command::Tags(int_tree::Command::List))
    } else if eq_lit(t, "reset") || eq_lit(t, "r") {
        Some(Command::Tags(int_tree::Command::Reset))
    } else {
        None
    }
}

fn is_tag_keyword(t: &str) -> (b: bool)
    ensures
        b == tag_keyword(t@),
{
    eq_lit(t, "ls") || eq_lit(t, "mk") || eq_lit(t, "rm") || eq_lit(t, "ch") || eq_lit(t, "reset")
        || eq_lit(t, "help") || eq_lit(t, "h") || eq_lit(t, "?")
}

impl Line {
    /// The mathematical value of a command parse result.
    pub open spec fn commands_result_view(r: Result<Vec<Command>, Error>) -> Result<Seq<CommandView>, ErrorView> {
        match r {
            Ok(c) => Ok(commands_view(c@)),
            Err(e) => Err(e@),
        }
    }

    /// The mathematical value of a line parse result.
    pub open spec fn result_view(r: Result<Line, Error>) -> Result<LineView, ErrorView> {
        match r {
            Ok(l) => Ok(l@),
            Err(e) => Err(e@),
        }
    }

    /// Reads the commands spelled by the words `source`.
    pub fn parse_command(source: &Vec<String>) -> (r: Result<Vec<Command>, Error>)
        ensures
            Line::commands_result_view(r) == parse_spec(strings_view(source@)),
    {
        let ghost w = strings_view(source@);
        let mut cmds: Vec<Command> = Vec::new();
        let mut i: usize = 0;
        proof {
            assert(w.skip(0) =~= w);
            assert(commands_view(cmds@) =~= Seq::<CommandView>::empty());
            if let Ok(t) = parse_spec(w) {
                assert(Seq::<CommandView>::empty() + t =~= t);
            }
        }
        while i < source.len()
            invariant
                w == strings_view(source@),
                i <= source@.len(),
                parse_spec(w) == prepend(commands_view(cmds@), parse_spec(w.skip(i as int))),
            decreases source@.len() - i,
        {
            let ghost rest = w.skip(i as int);
            let ghost before = commands_view(cmds@);
            let t = source[i].as_str();
            proof {
                assert(rest[0] == t@);
                assert(rest.len() > 1 ==> rest[1] == source@[i + 1]@);
                if i + 1 < source.len() {
                    assert(rest.skip(2) =~= w.skip(i + 2));
                }
                assert(rest.drop_first() =~= w.skip(i + 1));
            }
            if eq_lit(t, "loop") || eq_lit(t, "l") {
                if i + 1 < source.len() {
                    match parse_usize(source[i + 1].as_str()) {
                        Some(n) => {
                            cmds.push(Command::Loop(n));
                            proof {
                                assert(commands_view(cmds@) =~= before + seq![CommandView::Loop(n)]);
                                lemma_prepend_twice(before, seq![CommandView::Loop(n)], parse_spec(rest.skip(2)));
                            }
                            i = i + 2;
                        },
                        None => {
                            return Err(Error::UnspecifiedInt);
                        },
                    }
                } else {
                    return Err(Error::UnspecifiedInt);
                }
            } else if eq_lit(t, "tag") && i + 1 < source.len() && !is_tag_keyword(
                source[i + 1].as_str(),
            ) {
                let name = source[i + 1].clone();
                let c = Command::Tags(int_tree::Command::Create(name));
                let ghost cv = c@;
                cmds.push(c);
                proof {
                    assert(cv == CommandView::Tags(int_tree::CommandView::Create(rest[1])));
                    assert(commands_view(cmds@) =~= before + seq![cv]);
                    lemma_prepend_twice(before, seq![cv], parse_spec(rest.skip(2)));
                }
                i = i + 2;
            } else if eq_lit(t, "to") {
                if i + 1 < source.len() {
                    let name = source[i + 1].clone();
                    let c = Command::Tags(int_tree::Command::Checkout(name));
                    let ghost cv = c@;
                    cmds.push(c);
                    proof {
                        assert(cv == CommandView::Tags(int_tree::CommandView::Checkout(rest[1])));
                        assert(commands_view(cmds@) =~= before + seq![cv]);
                        lemma_prepend_twice(before, seq![cv], parse_spec(rest.skip(2)));
                    }
                    i = i + 2;
                } else {
                    return Err(Error::TagError(int_tree::Error::UnspecifiedTag));
                }
            } else if eq_lit(t, "tag") {
                let mut pos = i + 1;
                match int_tree::Command::parse_command(source, &mut pos) {
                    Ok(tc) => {
                        let ghost tv = tc@;
                        cmds.push(Command::Tags(tc));
                        proof {
                            let n = (pos - (i + 1)) as int;
                            assert(rest.drop_first().skip(n) =~= w.skip(pos as int));
                            assert(commands_view(cmds@) =~= before + seq![CommandView::Tags(tv)]);
                            lemma_prepend_twice(before, seq![CommandView::Tags(tv)], parse_spec(w.skip(pos as int)));
                        }
                        i = pos;
                    },
                    Err(e) => {
                        return Err(Error::from(e));
                    },
                }
            } else if eq_lit(t, "exit") || eq_lit(t, "quit") || eq_lit(t, "q") {
                cmds.push(Command::Quit);
                proof {
                    assert(commands_view(cmds@) =~= before + seq![CommandView::Quit]);
                }
                return Ok(cmds);
            } else if eq_lit(t, "load") || eq_lit(t, "file") || eq_lit(t, "qasm") {
                if i + 1 < source.len() {
                    let path = source[i + 1].clone();
                    cmds.push(Command::Load(path));
                    proof {
                        assert(commands_view(cmds@) =~= before + seq![CommandView::Load(rest[1])]);
                        lemma_prepend_twice(before, seq![CommandView::Load(rest[1])], parse_spec(rest.skip(2)));
                    }
                    i = i + 2;
                } else {
                    return Err(Error::UnspecifiedPath);
                }
            } else {
                match simple(t) {
                    Some(c) => {
                        let ghost cv = c@;
                        cmds.push(c);
                        proof {
                            assert(commands_view(cmds@) =~= before + seq![cv]);
                            lemma_prepend_twice(before, seq![cv], parse_spec(rest.drop_first()));
                        }
                        i = i + 1;
                    },
                    None => {
                        return Err(Error::UnknownCommand(source[i].clone()));
                    },
                }
            }
        }
        proof {
            assert(w.skip(i as int) =~= Seq::<Seq<char>>::empty());
            assert(commands_view(cmds@) + Seq::<CommandView>::empty() =~= commands_view(cmds@));
        }
        Ok(cmds)
    }

    /// Reads an input line: commands after a leading `:`, else a line of QASM.
    pub fn from_str(source: &str) -> (r: Result<Line, Error>)
        ensures
            Line::result_view(r) == from_str_spec(source@),
    {
        let s = chars_of(source);
        if s.len() > 0 && s[0] == ':' {
            let w = split_words(&s, 1);
            match Line::parse_command(&w) {
                Ok(c) => Ok(Line::Commands(c)),
                Err(e) => Err(e),
            }
        } else {
            Ok(Line::Qasm)
        }
    }
}

impl core::str::FromStr for Line {
    type Err = Error;

    /// Reads a line, as [`Line::from_str`] does.
    fn from_str(source: &str) -> (r: Result<Line, Error>)
        ensures
            Line::result_view(r) == from_str_spec(source@),
    {
        Line::from_str(source)
    }
}

} // verus!
