//! The first form of the interpreter's command line: tags are made with `tag`
//! and visited with `goto`.
use vstd::prelude::*;
use crate::text::{concat3, debug_str, quoted};
use crate::interpreter::{chars_of, eq_lit, parse_usize, parse_usize_spec, split_words, strings_view, words};

verus! {

/// Why a command line was refused.
#[derive(Debug, Clone, PartialEq)]
pub enum Error {
    MissingCollon,
    UnknownCommand(String),
    UnspecifiedPath,
    UnspecifiedInt,
    UnspecifiedTag,
    WrongTagName(String),
}

/// The mathematical value of an [`Error`].
pub enum ErrorView {
    MissingCollon,
    UnknownCommand(Seq<char>),
    UnspecifiedPath,
    UnspecifiedInt,
    UnspecifiedTag,
    WrongTagName(Seq<char>),
}

impl View for Error {
    type V = ErrorView;

    open spec fn view(&self) -> ErrorView {
        match self {
            Error::MissingCollon => ErrorView::MissingCollon,
            Error::UnknownCommand(s) => ErrorView::UnknownCommand(s@),
            Error::UnspecifiedPath => ErrorView::UnspecifiedPath,
            Error::UnspecifiedInt => ErrorView::UnspecifiedInt,
            Error::UnspecifiedTag => ErrorView::UnspecifiedTag,
            Error::WrongTagName(s) => ErrorView::WrongTagName(s@),
        }
    }
}

impl ErrorView {
    /// The text that reports the error; a missing colon is never reported.
    pub open spec fn message(self) -> Seq<char> {
        match self {
            ErrorView::MissingCollon => seq![],
            ErrorView::UnknownCommand(s) => "Unknown command: "@ + s,
            ErrorView::UnspecifiedPath => "Path to load file must be specified"@,
            ErrorView::UnspecifiedInt => "Integer must be specified to loop over comands"@,
            ErrorView::UnspecifiedTag => "Tag name as string must be specified"@,
            ErrorView::WrongTagName(s) => "There's no tag "@ + debug_str(s),
        }
    }
}

impl Error {
    /// The text that reports the error. A missing colon has none: such a line
    /// is not a command line at all.
    pub fn message(&self) -> (s: String)
        requires
            !(self@ is MissingCollon),
        ensures
            s@ == self@.message(),
    {
        proof {
            reveal_strlit("");
        }
        match self {
            Error::MissingCollon => String::new(),
            Error::UnknownCommand(t) => concat3("Unknown command: ", t.as_str(), ""),
            Error::UnspecifiedPath => concat3("Path to load file must be specified", "", ""),
            Error::UnspecifiedInt => concat3(
                "Integer must be specified to loop over comands",
                "",
                "",
            ),
            Error::UnspecifiedTag => concat3("Tag name as string must be specified", "", ""),
            Error::WrongTagName(t) => {
                let q = quoted(t.as_str());
                concat3("There's no tag ", q.as_str(), "")
            },
        }
    }
}

/// The reference text of the command line.
pub const HELP: &'static str = "QVNT Interpreter CLI

USAGE:
    : [COMMANDS...]

COMMANDS:
    watch|loop|l N          Repeat following commands N time
    tags|t TAG              Create TAG with current state
    goto TAG                Swap current state to TAG's state
    exit|quit|q             Exit interpreter
    class|c                 Show state of classical registers
    polar                   Show state of quantum registers in polar form
    prob|p                  Show state of quantum registers in probability form
    ops|o                   Snow current quantum operations queue
    finish|go|g             Start modulating quantum computer
    reset|r                 Clear current state
    names|alias|a           Show aliases for quantum and classical bits
    load|file|qasm FILE     Load state from FILE according to QASM language script
    help|h|?                Show this reference
";

/// One command.
#[derive(Clone, Debug, PartialEq)]
pub enum Command {
    Loop(usize),
    Tags,
    Tag(String),
    Goto(String),
    Go,
    Reset,
    Load(String),
    Class,
    Polar,
    Probs,
    Ops,
    Names,
    Help,
    Quit,
}

/// The mathematical value of a [`Command`].
pub enum CommandView {
    Loop(usize),
    Tags,
    Tag(Seq<char>),
    Goto(Seq<char>),
    Go,
    Reset,
    Load(Seq<char>),
    Class,
    Polar,
    Probs,
    Ops,
    Names,
    Help,
    Quit,
}

impl View for Command {
    type V = CommandView;

    open spec fn view(&self) -> CommandView {
        match self {
            Command::Loop(n) => CommandView::Loop(*n),
            Command::Tags => CommandView::Tags,
            Command::Tag(s) => CommandView::Tag(s@),
            Command::Goto(s) => CommandView::Goto(s@),
            Command::Go => CommandView::Go,
            Command::Reset => CommandView::Reset,
            Command::Load(s) => CommandView::Load(s@),
            Command::Class => CommandView::Class,
            Command::Polar => CommandView::Polar,
            Command::Probs => CommandView::Probs,
            Command::Ops => CommandView::Ops,
            Command::Names => CommandView::Names,
            Command::Help => CommandView::Help,
            Command::Quit => CommandView::Quit,
        }
    }
}

/// The commands of one command line.
#[derive(Clone, Debug, PartialEq)]
pub struct Commands(pub Vec<Command>);

/// The commands of a list of views.
pub open spec fn commands_view(v: Seq<Command>) -> Seq<CommandView> {
    v.map_values(|c: Command| c@)
}

/// `cmds` in front of the commands of `r`, or the error of `r`.
pub open spec fn prepend(
    cmds: Seq<CommandView>,
    r: Result<Seq<CommandView>, ErrorView>,
) -> Result<Seq<CommandView>, ErrorView> {
    match r {
        Ok(rest) => Ok(cmds + rest),
        Err(e) => Err(e),
    }
}

/// Prepending twice is prepending the concatenation.
pub proof fn lemma_prepend_twice(
    a: Seq<CommandView>,
    b: Seq<CommandView>,
    r: Result<Seq<CommandView>, ErrorView>,
)
    ensures
        prepend(a, prepend(b, r)) == prepend(a + b, r),
{
    if let Ok(t) = r {
        assert(a + (b + t) =~= (a + b) + t);
    }
}

/// Prepending nothing changes nothing.
pub proof fn lemma_prepend_empty(r: Result<Seq<CommandView>, ErrorView>)
    ensures
        prepend(seq![], r) == r,
{
    if let Ok(t) = r {
        assert(Seq::<CommandView>::empty() + t =~= t);
    }
}

/// A command without argument, by its keyword.
pub open spec fn simple_command(c: Seq<char>) -> Option<CommandView> {
    if c == "tags"@ {
        Some(CommandView::Tags)
    } else if c == "class"@ || c == "c"@ {
        Some(CommandView::Class)
    } else if c == "polar"@ {
        Some(CommandView::Polar)
    } else if c == "prob"@ || c == "p"@ {
        Some(CommandView::Probs)
    } else if c == "ops"@ || c == "o"@ {
        Some(CommandView::Ops)
    } else if c == "finish"@ || c == "go"@ || c == "g"@ {
        Some(CommandView::Go)
    } else if c == "reset"@ || c == "r"@ {
        Some(CommandView::Reset)
    } else if c == "names"@ || c == "alias"@ || c == "a"@ {
        Some(CommandView::Names)
    } else if c == "help"@ || c == "h"@ || c == "?"@ {
        Some(CommandView::Help)
    } else {
        None
    }
}

/// The commands that the words `w` spell, or why they spell none.
pub open spec fn parse_spec(w: Seq<Seq<char>>) -> Result<Seq<CommandView>, ErrorView>
    decreases w.len(),
{
    if w.len() == 0 {
        Ok(seq![])
    } else {
        let c = w[0];
        if c == "watch"@ || c == "loop"@ || c == "l"@ {
            if w.len() > 1 && parse_usize_spec(w[1]) is Some {
                prepend(seq![CommandView::Loop(parse_usize_spec(w[1])->0)], parse_spec(w.skip(2)))
            } else {
                Err(ErrorView::UnspecifiedInt)
            }
        } else if c == "tag"@ || c == "t"@ {
            if w.len() > 1 {
                prepend(seq![CommandView::Tag(w[1])], parse_spec(w.skip(2)))
            } else {
                Err(ErrorView::UnspecifiedTag)
            }
        } else if c == "goto"@ {
            if w.len() > 1 {
                prepend(seq![CommandView::Goto(w[1])], parse_spec(w.skip(2)))
            } else {
                Err(ErrorView::UnspecifiedTag)
            }
        } else if c == "exit"@ || c == "quit"@ || c == "q"@ {
            Ok(seq![CommandView::Quit])
        } else if c == "load"@ || c == "file"@ || c == "qasm"@ {
            if w.len() > 1 {
                prepend(seq![CommandView::Load(w[1])], parse_spec(w.skip(2)))
            } else {
                Err(ErrorView::UnspecifiedPath)
            }
        } else if simple_command(c) is Some {
            prepend(seq![simple_command(c)->0], parse_spec(w.drop_first()))
        } else {
            Err(ErrorView::UnknownCommand(c))
        }
    }
}

/// The keyword table of the help text: a command line of one word reads as
/// the one command that the help text gives that word, and only those words
/// read as it: `tags`, `class|c`, `polar`, `prob|p`, `ops|o`, `finish|go|g`,
/// `reset|r`, `names|alias|a`, `help|h|?` and `exit|quit|q`.
#[verifier::rlimit(60)]
pub proof fn lemma_keywords(w: Seq<char>)
    ensures
        (parse_spec(seq![w]) == Ok::<Seq<CommandView>, ErrorView>(seq![CommandView::Tags])) <==> (w == "tags"@),
        (parse_spec(seq![w]) == Ok::<Seq<CommandView>, ErrorView>(seq![CommandView::Class])) <==> (w == "class"@ || w == "c"@),
        (parse_spec(seq![w]) == Ok::<Seq<CommandView>, ErrorView>(seq![CommandView::Polar])) <==> (w == "polar"@),
        (parse_spec(seq![w]) == Ok::<Seq<CommandView>, ErrorView>(seq![CommandView::Probs])) <==> (w == "prob"@ || w == "p"@),
        (parse_spec(seq![w]) == Ok::<Seq<CommandView>, ErrorView>(seq![CommandView::Ops])) <==> (w == "ops"@ || w == "o"@),
        (parse_spec(seq![w]) == Ok::<Seq<CommandView>, ErrorView>(seq![CommandView::Go])) <==> (w == "finish"@ || w == "go"@ || w == "g"@),
        (parse_spec(seq![w]) == Ok::<Seq<CommandView>, ErrorView>(seq![CommandView::Reset])) <==> (w == "reset"@ || w == "r"@),
        (parse_spec(seq![w]) == Ok::<Seq<CommandView>, ErrorView>(seq![CommandView::Names])) <==> (w == "names"@ || w == "alias"@ || w == "a"@),
        (parse_spec(seq![w]) == Ok::<Seq<CommandView>, ErrorView>(seq![CommandView::Help])) <==> (w == "help"@ || w == "h"@ || w == "?"@),
        (parse_spec(seq![w]) == Ok::<Seq<CommandView>, ErrorView>(seq![CommandView::Quit])) <==> (w == "exit"@ || w == "quit"@ || w == "q"@),
{
    reveal_strlit("tags");
    reveal_strlit("class");
    reveal_strlit("c");
    reveal_strlit("polar");
    reveal_strlit("prob");
    reveal_strlit("p");
    reveal_strlit("ops");
    reveal_strlit("o");
    reveal_strlit("finish");
    reveal_strlit("go");
    reveal_strlit("g");
    reveal_strlit("reset");
    reveal_strlit("r");
    reveal_strlit("names");
    reveal_strlit("alias");
    reveal_strlit("a");
    reveal_strlit("help");
    reveal_strlit("h");
    reveal_strlit("?");
    reveal_strlit("watch");
    reveal_strlit("loop");
    reveal_strlit("l");
    reveal_strlit("tag");
    reveal_strlit("t");
    reveal_strlit("goto");
    reveal_strlit("exit");
    reveal_strlit("quit");
    reveal_strlit("q");
    reveal_strlit("load");
    reveal_strlit("file");
    reveal_strlit("qasm");
    assert("tags"@.len() == 4 && "tags"@[0] == 't' && "tags"@[1] == 'a' && "tags"@[2] == 'g');
    assert("class"@.len() == 5 && "class"@[0] == 'c' && "class"@[1] == 'l' && "class"@[2] == 'a');
    assert("c"@.len() == 1 && "c"@[0] == 'c');
    assert("polar"@.len() == 5 && "polar"@[0] == 'p' && "polar"@[1] == 'o' && "polar"@[2] == 'l');
    assert("prob"@.len() == 4 && "prob"@[0] == 'p' && "prob"@[1] == 'r' && "prob"@[2] == 'o');
    assert("p"@.len() == 1 && "p"@[0] == 'p');
    assert("ops"@.len() == 3 && "ops"@[0] == 'o' && "ops"@[1] == 'p' && "ops"@[2] == 's');
    assert("o"@.len() == 1 && "o"@[0] == 'o');
    assert("finish"@.len() == 6 && "finish"@[0] == 'f' && "finish"@[1] == 'i' && "finish"@[2] == 'n');
    assert("go"@.len() == 2 && "go"@[0] == 'g' && "go"@[1] == 'o');
    assert("g"@.len() == 1 && "g"@[0] == 'g');
    assert("reset"@.len() == 5 && "reset"@[0] == 'r' && "reset"@[1] == 'e' && "reset"@[2] == 's');
    assert("r"@.len() == 1 && "r"@[0] == 'r');
    assert("names"@.len() == 5 && "names"@[0] == 'n' && "names"@[1] == 'a' && "names"@[2] == 'm');
    assert("alias"@.len() == 5 && "alias"@[0] == 'a' && "alias"@[1] == 'l' && "alias"@[2] == 'i');
    assert("a"@.len() == 1 && "a"@[0] == 'a');
    assert("help"@.len() == 4 && "help"@[0] == 'h' && "help"@[1] == 'e' && "help"@[2] == 'l');
    assert("h"@.len() == 1 && "h"@[0] == 'h');
    assert("?"@.len() == 1 && "?"@[0] == '?');
    assert("watch"@.len() == 5 && "watch"@[0] == 'w' && "watch"@[1] == 'a' && "watch"@[2] == 't');
    assert("loop"@.len() == 4 && "loop"@[0] == 'l' && "loop"@[1] == 'o' && "loop"@[2] == 'o');
    assert("l"@.len() == 1 && "l"@[0] == 'l');
    assert("tag"@.len() == 3 && "tag"@[0] == 't' && "tag"@[1] == 'a' && "tag"@[2] == 'g');
    assert("t"@.len() == 1 && "t"@[0] == 't');
    assert("goto"@.len() == 4 && "goto"@[0] == 'g' && "goto"@[1] == 'o' && "goto"@[2] == 't');
    assert("exit"@.len() == 4 && "exit"@[0] == 'e' && "exit"@[1] == 'x' && "exit"@[2] == 'i');
    assert("quit"@.len() == 4 && "quit"@[0] == 'q' && "quit"@[1] == 'u' && "quit"@[2] == 'i');
    assert("q"@.len() == 1 && "q"@[0] == 'q');
    assert("load"@.len() == 4 && "load"@[0] == 'l' && "load"@[1] == 'o' && "load"@[2] == 'a');
    assert("file"@.len() == 4 && "file"@[0] == 'f' && "file"@[1] == 'i' && "file"@[2] == 'l');
    assert("qasm"@.len() == 4 && "qasm"@[0] == 'q' && "qasm"@[1] == 'a' && "qasm"@[2] == 's');
    let ws = seq![w];
    let e = Seq::<Seq<char>>::empty();
    assert(ws.drop_first() =~= e);
    assert(parse_spec(e) == Ok::<Seq<CommandView>, ErrorView>(seq![]));
    let k: Option<CommandView> = if w == "watch"@ || w == "loop"@ || w == "l"@ || w == "tag"@ || w
        == "t"@ || w == "goto"@ || w == "load"@ || w == "file"@ || w == "qasm"@ {
        None
    } else if w == "exit"@ || w == "quit"@ || w == "q"@ {
        Some(CommandView::Quit)
    } else {
        simple_command(w)
    };
    if let Some(c) = k {
        assert(seq![c] + Seq::<CommandView>::empty() =~= seq![c]);
        assert(parse_spec(ws) == Ok::<Seq<CommandView>, ErrorView>(seq![c]));
        lemma_one_command_eq(CommandView::Tags, c);
        lemma_one_command_eq(CommandView::Class, c);
        lemma_one_command_eq(CommandView::Polar, c);
        lemma_one_command_eq(CommandView::Probs, c);
        lemma_one_command_eq(CommandView::Ops, c);
        lemma_one_command_eq(CommandView::Go, c);
        lemma_one_command_eq(CommandView::Reset, c);
        lemma_one_command_eq(CommandView::Names, c);
        lemma_one_command_eq(CommandView::Help, c);
        lemma_one_command_eq(CommandView::Quit, c);
    } else {
        assert(parse_spec(ws) is Err);
    }
}

proof fn lemma_one_command_eq(x: CommandView, y: CommandView)
    ensures
        (Ok::<Seq<CommandView>, ErrorView>(seq![x]) == Ok::<Seq<CommandView>, ErrorView>(seq![y]))
            <==> x == y,
{
    if seq![x] == seq![y] {
        assert(seq![x][0] == seq![y][0]);
    }
}

/// What reading the line `s` gives: its commands when it starts with `:`.
pub open spec fn from_str_spec(s: Seq<char>) -> Result<Seq<CommandView>, ErrorView> {
    if s.len() > 0 && s[0] == ':' {
        parse_spec(words(s.skip(1)))
    } else {
        Err(ErrorView::MissingCollon)
    }
}

fn simple(t: &str) -> (r: Option<Command>)
    ensures
        r is Some <==> simple_command(t@) is Some,
        r matches Some(c) ==> c@ == simple_command(t@)->0,
{
    if eq_lit(t, "tags") {
        Some(Command::Tags)
    } else if eq_lit(t, "class") || eq_lit(t, "c") {
        Some(Command::Class)
    } else if eq_lit(t, "polar") {
        Some(Command::Polar)
    } else if eq_lit(t, "prob") || eq_lit(t, "p") {
        Some(Command::Probs)
    } else if eq_lit(t, "ops") || eq_lit(t, "o") {
        Some(Command::Ops)
    } else if eq_lit(t, "finish") || eq_lit(t, "go") || eq_lit(t, "g") {
        Some(Command::Go)
    } else if eq_lit(t, "reset") || eq_lit(t, "r") {
        Some(Command::Reset)
    } else if eq_lit(t, "names") || eq_lit(t, "alias") || eq_lit(t, "a") {
        Some(Command::Names)
    } else if eq_lit(t, "help") || eq_lit(t, "h") || eq_lit(t, "?") {
        Some(Command::Help)
    } else {
        None
    }
}

impl Commands {
    /// The mathematical value of a parse result.
    pub open spec fn result_view(r: Result<Commands, Error>) -> Result<Seq<CommandView>, ErrorView> {
        match r {
            Ok(c) => Ok(commands_view(c.0@)),
            Err(e) => Err(e@),
        }
    }

    /// Reads the commands spelled by the words `source`.
    pub fn parse(source: &Vec<String>) -> (r: Result<Commands, Error>)
        ensures
            Commands::result_view(r) == parse_spec(strings_view(source@)),
    {
        let ghost w = strings_view(source@);
        let mut cmds: Vec<Command> = Vec::new();
        let mut i: usize = 0;
        proof {
            assert(w.skip(0) =~= w);
            lemma_prepend_empty(parse_spec(w));
            assert(commands_view(cmds@) =~= Seq::<CommandView>::empty());
        }
        while i < source.len()
            invariant
                w == strings_view(source@),
                i <= source@.len(),
                parse_spec(w) == prepend(commands_view(cmds@), parse_spec(w.skip(i as int))),
            decreases source@.len() - i,
        {
            let ghost rest = w.skip(i as int);
            let ghost before = commands_view(cmds@);
            let t = source[i].as_str();
            proof {
                assert(rest[0] == t@);
                assert(rest.len() > 1 ==> rest[1] == source@[i + 1]@);
                if i + 1 < source.len() {
                    assert(rest.skip(2) =~= w.skip(i + 2));
                }
                assert(rest.drop_first() =~= w.skip(i + 1));
            }
            if eq_lit(t, "watch") || eq_lit(t, "loop") || eq_lit(t, "l") {
                if i + 1 < source.len() {
                    match parse_usize(source[i + 1].as_str()) {
                        Some(n) => {
                            cmds.push(Command::Loop(n));
                            proof {
                                assert(commands_view(cmds@) =~= before + seq![CommandView::Loop(n)]);
                                lemma_prepend_twice(before, seq![CommandView::Loop(n)], parse_spec(rest.skip(2)));
                            }
                            i = i + 2;
                        },
                        None => {
                            return Err(Error::UnspecifiedInt);
                        },
                    }
                } else {
                    return Err(Error::UnspecifiedInt);
                }
            } else if eq_lit(t, "tag") || eq_lit(t, "t") {
                if i + 1 < source.len() {
                    let tag = source[i + 1].clone();
                    cmds.push(Command::Tag(tag));
                    proof {
                        assert(commands_view(cmds@) =~= before + seq![CommandView::Tag(rest[1])]);
                                lemma_prepend_twice(before, seq![CommandView::Tag(rest[1])], parse_spec(rest.skip(2)));
                    }
                    i = i + 2;
                } else {
                    return Err(Error::UnspecifiedTag);
                }
            } else if eq_lit(t, "goto") {
                if i + 1 < source.len() {
                    let tag = source[i + 1].clone();
                    cmds.push(Command::Goto(tag));
                    proof {
                        assert(commands_view(cmds@) =~= before + seq![CommandView::Goto(rest[1])]);
                                lemma_prepend_twice(before, seq![CommandView::Goto(rest[1])], parse_spec(rest.skip(2)));
                    }
                    i = i + 2;
                } else {
                    return Err(Error::UnspecifiedTag);
                }
            } else if eq_lit(t, "exit") || eq_lit(t, "quit") || eq_lit(t, "q") {
                cmds.push(Command::Quit);
                proof {
                    assert(commands_view(cmds@) =~= before + seq![CommandView::Quit]);
                }
                return Ok(Commands(cmds));
            } else if eq_lit(t, "load") || eq_lit(t, "file") || eq_lit(t, "qasm") {
                if i + 1 < source.len() {
                    let path = source[i + 1].clone();
                    cmds.push(Command::Load(path));
                    proof {
                        assert(commands_view(cmds@) =~= before + seq![CommandView::Load(rest[1])]);
                                lemma_prepend_twice(before, seq![CommandView::Load(rest[1])], parse_spec(rest.skip(2)));
                    }
                    i = i + 2;
                } else {
                    return Err(Error::UnspecifiedPath);
                }
            } else {
                match simple(t) {
                    Some(c) => {
                        let ghost cv = c@;
                        cmds.push(c);
                        proof {
                            assert(commands_view(cmds@) =~= before + seq![cv]);
                            lemma_prepend_twice(before, seq![cv], parse_spec(rest.drop_first()));
                        }
                        i = i + 1;
                    },
                    None => {
                        return Err(Error::UnknownCommand(source[i].clone()));
                    },
                }
            }
        }
        proof {
            assert(w.skip(i as int) =~= Seq::<Seq<char>>::empty());
            assert(commands_view(cmds@) + Seq::<CommandView>::empty() =~= commands_view(cmds@));
        }
        Ok(Commands(cmds))
    }

    /// Reads a command line: `:` followed by commands separated by ASCII whitespace.
    pub fn from_str(source: &str) -> (r: Result<Commands, Error>)
        ensures
            Commands::result_view(r) == from_str_spec(source@),
    {
        let s = chars_of(source);
        if s.len() > 0 && s[0] == ':' {
            let w = split_words(&s, 1);
            Commands::parse(&w)
        } else {
            Err(Error::MissingCollon)
        }
    }
}

impl core::str::FromStr for Commands {
    type Err = Error;

    /// Reads a line, as [`Commands::from_str`] does.
    fn from_str(source: &str) -> (r: Result<Commands, Error>)
        ensures
            Commands::result_view(r) == from_str_spec(source@),
    {
        Commands::from_str(source)
    }
}

} // verus!
