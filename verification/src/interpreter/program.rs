//! The interpreter's read loop: a line that ends with `{` opens a block of QASM
//! source, which grows line by line until a line that ends with `}` closes it.
use vstd::prelude::*;
use crate::interpreter::process::{Error, ErrorView};
use crate::text::push_str;

verus! {

/// The interpreter's command-line arguments.
#[derive(Clone, Debug, PartialEq)]
pub struct CliArgs {
    /// The QASM file to load first.
    pub input: Option<String>,
    /// Whether errors are shown in their debug form.
    pub dbg: bool,
    /// The file the history of entered lines is read from.
    pub history: String,
}

/// The prompt shown while no block is open.
pub const SIGN: &'static str = "|Q> ";

/// The prompt shown while a block is open.
pub const BLCK: &'static str = "... ";

/// What the read loop is to do with a line it was given.
#[derive(Debug, Clone, PartialEq)]
pub enum LineAction {
    /// Nothing yet: the line went into the open block.
    Wait,
    /// Run this QASM source: the block it closes.
    Qasm(String),
    /// Process this line on its own.
    Line(String),
}

/// The mathematical value of a [`LineAction`].
pub enum LineActionView {
    Wait,
    Qasm(Seq<char>),
    Line(Seq<char>),
}

impl View for LineAction {
    type V = LineActionView;

    open spec fn view(&self) -> LineActionView {
        match self {
            LineAction::Wait => LineActionView::Wait,
            LineAction::Qasm(s) => LineActionView::Qasm(s@),
            LineAction::Line(s) => LineActionView::Line(s@),
        }
    }
}

/// A block of QASM source that is being read.
pub struct Block {
    /// Whether a block is open.
    pub open: bool,
    /// The lines read into the block so far, joined.
    pub text: String,
}

/// The next state of the block and the action, after the line `line` was read
/// while the block was `(open, text)`.
pub open spec fn feed_spec(open: bool, text: Seq<char>, line: Seq<char>) -> (
    bool,
    Seq<char>,
    LineActionView,
) {
    if line.len() > 0 && line.last() == '{' {
        (true, text + line, LineActionView::Wait)
    } else if line.len() > 0 && line.last() == '}' && open {
        (false, seq![], LineActionView::Qasm(text + line))
    } else if open {
        (true, text + line, LineActionView::Wait)
    } else {
        (false, text, LineActionView::Line(line))
    }
}

/// The state of the block and the actions, after the lines `lines` were read
/// one by one from the state `(open, text)`.
pub open spec fn feed_all(open: bool, text: Seq<char>, lines: Seq<Seq<char>>) -> (
    bool,
    Seq<char>,
    Seq<LineActionView>,
)
    decreases lines.len(),
{
    if lines.len() == 0 {
        (open, text, seq![])
    } else {
        let (o, t, a) = feed_spec(open, text, lines[0]);
        let (o2, t2, rest) = feed_all(o, t, lines.drop_first());
        (o2, t2, seq![a] + rest)
    }
}

/// The lines of `lines` joined into one text.
pub open spec fn joined(lines: Seq<Seq<char>>) -> Seq<char>
    decreases lines.len(),
{
    if lines.len() == 0 {
        seq![]
    } else {
        lines[0] + joined(lines.drop_first())
    }
}

/// Whether the line ends with `c`.
pub open spec fn ends_with(line: Seq<char>, c: char) -> bool {
    line.len() > 0 && line.last() == c
}

proof fn lemma_feed_open(text: Seq<char>, lines: Seq<Seq<char>>, last: Seq<char>)
    requires
        forall|k: int| 0 <= k < lines.len() ==> !ends_with(#[trigger] lines[k], '}'),
        ends_with(last, '}'),
    ensures
        feed_all(true, text, lines.push(last)) == (
            false,
            Seq::<char>::empty(),
            Seq::new(lines.len(), |k: int| LineActionView::Wait).push(
                LineActionView::Qasm(text + joined(lines.push(last))),
            ),
        ),
    decreases lines.len(),
{
    let all = lines.push(last);
    if lines.len() == 0 {
        assert(all.drop_first() =~= Seq::<Seq<char>>::empty());
        assert(joined(all.drop_first()) =~= Seq::<char>::empty());
        assert(joined(all) =~= last);
        assert(all[0] == last);
        assert(last.last() != '{');
        assert(feed_spec(true, text, last) == (false, Seq::<char>::empty(), LineActionView::Qasm(text + last)));
        assert(feed_all(false, Seq::<char>::empty(), all.drop_first()) == (false, Seq::<char>::empty(), Seq::<LineActionView>::empty()));
        assert(feed_all(true, text, all).2 =~= seq![LineActionView::Qasm(text + last)]);
    } else {
        let l = lines[0];
        assert(!ends_with(l, '}'));
        assert(all.drop_first() =~= lines.drop_first().push(last));
        assert forall|k: int| 0 <= k < lines.drop_first().len() implies !ends_with(
            #[trigger] lines.drop_first()[k],
            '}',
        ) by {
            assert(lines.drop_first()[k] == lines[k + 1]);
        }
        lemma_feed_open(text + l, lines.drop_first(), last);
        assert(all[0] == l);
        assert(feed_spec(true, text, l) == (true, text + l, LineActionView::Wait));
        assert(joined(all) == l + joined(all.drop_first()));
        assert(text + l + joined(lines.drop_first().push(last)) =~= text + joined(all));
        assert(feed_all(true, text, all).2 =~= Seq::new(lines.len(), |k: int| LineActionView::Wait).push(
            LineActionView::Qasm(text + joined(all)),
        ));
    }
}

/// A block of QASM is run as one source: from no open block, a line that ends
/// with `{`, lines none of which ends with `}`, and a line that ends with `}`
/// give nothing to do until the last, which gives all of them joined.
pub proof fn lemma_block_runs_whole(text: Seq<char>, first: Seq<char>, lines: Seq<Seq<char>>, last: Seq<char>)
    requires
        ends_with(first, '{'),
        forall|k: int| 0 <= k < lines.len() ==> !ends_with(#[trigger] lines[k], '}'),
        ends_with(last, '}'),
    ensures
        feed_all(false, text, seq![first] + lines.push(last)) == (
            false,
            Seq::<char>::empty(),
            Seq::new(lines.len() + 1, |k: int| LineActionView::Wait).push(
                LineActionView::Qasm(text + first + joined(lines.push(last))),
            ),
        ),
{
    let all = seq![first] + lines.push(last);
    assert(all.drop_first() =~= lines.push(last));
    assert(all[0] == first);
    lemma_feed_open(text + first, lines, last);
    assert(feed_all(false, text, all).2 =~= Seq::new(lines.len() + 1, |k: int| LineActionView::Wait).push(
        LineActionView::Qasm(text + first + joined(lines.push(last))),
    ));
}

impl Block {
    /// No block open.
    pub fn new() -> (b: Block)
        ensures
            !b.open,
            b.text@ == Seq::<char>::empty(),
    {
        Block { open: false, text: String::new() }
    }

    /// The prompt to show before the next line is read.
    pub fn prompt(&self) -> (p: &'static str)
        ensures
            p@ == if self.open { BLCK@ } else { SIGN@ },
    {
        if self.open {
            BLCK
        } else {
            SIGN
        }
    }

    /// Takes the line `line` that was read, and says what to do with it.
    pub fn feed(&mut self, line: String) -> (a: LineAction)
        ensures
            (final(self).open, final(self).text@, a@) == feed_spec(
                old(self).open,
                old(self).text@,
                line@,
            ),
    {
        let n = line.as_str().unicode_len();
        let last = if n > 0 {
            Some(line.as_str().get_char(n - 1))
        } else {
            None
        };
        proof {
            if n > 0 {
                assert(line@.last() == line@[n - 1]);
            }
        }
        if last == Some('{') {
            push_str(&mut self.text, line.as_str());
            self.open = true;
            LineAction::Wait
        } else if last == Some('}') && self.open {
            push_str(&mut self.text, line.as_str());
            self.open = false;
            let mut source = String::new();
            std::mem::swap(&mut source, &mut self.text);
            LineAction::Qasm(source)
        } else if self.open {
            push_str(&mut self.text, line.as_str());
            LineAction::Wait
        } else {
            LineAction::Line(line)
        }
    }
}

/// The exit code that the error `e` calls for: `None` to go on reading.
pub open spec fn exit_code(e: ErrorView) -> Option<i32> {
    match e {
        ErrorView::Inner | ErrorView::Unimplemented => Some(0xDE),
        ErrorView::Line(_) | ErrorView::Dyn(_) => None,
        ErrorView::Quit(n) => Some(n),
    }
}

/// Whether the interpreter stops after `result`, and with which exit code.
pub fn handle_error(result: &Result<(), Error>) -> (code: Option<i32>)
    ensures
        code == match result {
            Ok(()) => None,
            Err(e) => exit_code(e@),
        },
{
    match result {
        Ok(()) => None,
        Err(Error::Inner) | Err(Error::Unimplemented) => Some(0xDE),
        Err(Error::Line(_)) | Err(Error::Dyn(_)) => None,
        Err(Error::Quit(n)) => Some(*n),
    }
}

} // verus!
