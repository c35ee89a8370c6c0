//! Running the commands of one line: `loop N` repeats every command that
//! follows it on the line `N` times, and the `tag` subcommands move the head of
//! the tag tree.
use vstd::prelude::*;
use crate::interpreter::int_tree::{self, IntTree, RemoveStatus};
use crate::interpreter::lines::{self, commands_view, Command, CommandView};
use crate::text::concat3;

verus! {

/// `s` written `n` times in a row.
pub open spec fn repeat(s: Seq<CommandView>, n: nat) -> Seq<CommandView>
    decreases n,
{
    if n == 0 {
        seq![]
    } else {
        s + repeat(s, (n - 1) as nat)
    }
}

/// The commands that run for the commands of `s` from position `i` on: a
/// `loop N` runs everything after it `N` times, any other command runs once.
pub open spec fn expand_from(s: Seq<CommandView>, i: int) -> Seq<CommandView>
    decreases s.len() - i,
{
    if i < 0 || i >= s.len() {
        seq![]
    } else {
        match s[i] {
            CommandView::Loop(n) => repeat(expand_from(s, i + 1), n as nat),
            c => seq![c] + expand_from(s, i + 1),
        }
    }
}

/// The commands that run for the command line `s`, in order.
pub open spec fn expand(s: Seq<CommandView>) -> Seq<CommandView> {
    expand_from(s, 0)
}

/// Whether `s` holds no `loop`.
pub open spec fn loop_free(s: Seq<CommandView>) -> bool {
    forall|i: int| 0 <= i < s.len() ==> !(#[trigger] s[i] is Loop)
}

/// The commands still owed by the open loops `frames`, innermost last: each
/// frame is the position of a `loop` and how many more times it repeats.
pub open spec fn frames_pending(s: Seq<CommandView>, frames: Seq<(usize, usize)>) -> Seq<
    CommandView,
>
    decreases frames.len(),
{
    if frames.len() == 0 {
        seq![]
    } else {
        let f = frames.last();
        repeat(expand_from(s, f.0 + 1), f.1 as nat) + frames_pending(s, frames.drop_last())
    }
}

/// How many steps it takes to walk the commands of `s` from position `i` once.
pub open spec fn cost_from(s: Seq<CommandView>, i: int) -> nat
    decreases s.len() - i,
{
    if i < 0 || i >= s.len() {
        0
    } else {
        match s[i] {
            CommandView::Loop(n) => 1 + (n as nat) * (cost_from(s, i + 1) + 1),
            _ => 1 + cost_from(s, i + 1),
        }
    }
}

/// How many steps the open loops `frames` still take.
pub open spec fn frames_cost(s: Seq<CommandView>, frames: Seq<(usize, usize)>) -> nat
    decreases frames.len(),
{
    if frames.len() == 0 {
        0
    } else {
        let f = frames.last();
        (f.1 as nat) * (cost_from(s, f.0 + 1) + 1) + 1 + frames_cost(s, frames.drop_last())
    }
}

proof fn lemma_expand_from_loop_free(s: Seq<CommandView>, i: int)
    requires
        loop_free(s),
        0 <= i <= s.len(),
    ensures
        expand_from(s, i) == s.skip(i),
    decreases s.len() - i,
{
    if i < s.len() {
        lemma_expand_from_loop_free(s, i + 1);
        assert(!(s[i] is Loop));
        assert(s.skip(i) =~= seq![s[i]] + s.skip(i + 1));
    } else {
        assert(s.skip(i) =~= seq![]);
    }
}

/// A line without `loop` runs each of its commands once, in the order written.
pub proof fn lemma_expand_loop_free(s: Seq<CommandView>)
    requires
        loop_free(s),
    ensures
        expand(s) == s,
{
    lemma_expand_from_loop_free(s, 0);
    assert(s.skip(0) =~= s);
}

/// `loop N` in front of a line runs what the rest of the line runs, `N` times over.
pub proof fn lemma_expand_loop(n: usize, rest: Seq<CommandView>)
    ensures
        expand(seq![CommandView::Loop(n)] + rest) == repeat(expand(rest), n as nat),
        expand(seq![CommandView::Loop(n)] + rest).len() == (n as nat) * expand(rest).len(),
{
    let s = seq![CommandView::Loop(n)] + rest;
    assert forall|i: int| 0 <= i <= rest.len() implies expand_from(s, i + 1) == expand_from(
        rest,
        i,
    ) by {
        lemma_expand_from_shift(s, rest, i);
    }
    assert(s[0] == CommandView::Loop(n));
    lemma_repeat_len(expand(rest), n as nat);
}

proof fn lemma_expand_from_shift(s: Seq<CommandView>, rest: Seq<CommandView>, i: int)
    requires
        s.len() == rest.len() + 1,
        forall|k: int| 0 <= k < rest.len() ==> s[k + 1] == rest[k],
        0 <= i <= rest.len(),
    ensures
        expand_from(s, i + 1) == expand_from(rest, i),
    decreases rest.len() - i,
{
    if i < rest.len() {
        lemma_expand_from_shift(s, rest, i + 1);
        assert(s[i + 1] == rest[i]);
    }
}

proof fn lemma_repeat_len(s: Seq<CommandView>, n: nat)
    ensures
        repeat(s, n).len() == n * s.len(),
    decreases n,
{
    if n > 0 {
        lemma_repeat_len(s, (n - 1) as nat);
        assert(repeat(s, n) == s + repeat(s, (n - 1) as nat));
        assert(n * s.len() == s.len() + ((n - 1) as nat) * s.len()) by (nonlinear_arith)
            requires
                n > 0,
        ;
    } else {
        assert(repeat(s, n) =~= seq![]);
        assert(n * s.len() == 0) by (nonlinear_arith)
            requires
                n == 0,
        ;
    }
}

proof fn lemma_repeat_loop_free(x: Seq<CommandView>, n: nat)
    requires
        loop_free(x),
    ensures
        loop_free(repeat(x, n)),
    decreases n,
{
    if n > 0 {
        lemma_repeat_loop_free(x, (n - 1) as nat);
        let r = repeat(x, (n - 1) as nat);
        assert forall|i: int| 0 <= i < (x + r).len() implies !(#[trigger] (x + r)[i] is Loop) by {
            if i < x.len() {
                assert((x + r)[i] == x[i]);
            } else {
                assert((x + r)[i] == r[i - x.len()]);
            }
        }
    }
}

proof fn lemma_concat_loop_free(x: Seq<CommandView>, y: Seq<CommandView>)
    requires
        loop_free(x),
        loop_free(y),
    ensures
        loop_free(x + y),
{
    assert forall|i: int| 0 <= i < (x + y).len() implies !(#[trigger] (x + y)[i] is Loop) by {
        if i < x.len() {
            assert((x + y)[i] == x[i]);
        } else {
            assert((x + y)[i] == y[i - x.len()]);
        }
    }
}

proof fn lemma_expand_from_no_loop(s: Seq<CommandView>, i: int)
    ensures
        loop_free(expand_from(s, i)),
    decreases s.len() - i,
{
    if 0 <= i < s.len() {
        lemma_expand_from_no_loop(s, i + 1);
        match s[i] {
            CommandView::Loop(n) => lemma_repeat_loop_free(expand_from(s, i + 1), n as nat),
            c => lemma_concat_loop_free(seq![c], expand_from(s, i + 1)),
        }
    }
}

/// Unrolling a line leaves no `loop` in what runs.
pub proof fn lemma_expand_no_loop(s: Seq<CommandView>)
    ensures
        loop_free(expand(s)),
{
    lemma_expand_from_no_loop(s, 0);
}

proof fn lemma_frames_no_loop(s: Seq<CommandView>, frames: Seq<(usize, usize)>)
    ensures
        loop_free(frames_pending(s, frames)),
    decreases frames.len(),
{
    if frames.len() > 0 {
        let f = frames.last();
        lemma_expand_from_no_loop(s, f.0 + 1);
        lemma_repeat_loop_free(expand_from(s, f.0 + 1), f.1 as nat);
        lemma_frames_no_loop(s, frames.drop_last());
        lemma_concat_loop_free(
            repeat(expand_from(s, f.0 + 1), f.1 as nat),
            frames_pending(s, frames.drop_last()),
        );
    }
}

proof fn lemma_repeat_unfold(s: Seq<CommandView>, n: nat)
    requires
        n > 0,
    ensures
        repeat(s, n) == s + repeat(s, (n - 1) as nat),
{
}

proof fn lemma_loop_cost(c: nat, n: nat)
    requires
        n > 0,
    ensures
        1 + n * (c + 1) == 2 + c + ((n - 1) as nat) * (c + 1),
{
    assert(n * (c + 1) == (c + 1) + ((n - 1) as nat) * (c + 1)) by (nonlinear_arith)
        requires
            n > 0,
    ;
}

/// Walks the commands of a line in the order in which they run, `loop`s
/// unrolled, one command at a time.
pub struct CommandCursor {
    cmds: Vec<Command>,
    pos: usize,
    frames: Vec<(usize, usize)>,
}

impl CommandCursor {
    /// The commands of the line.
    pub closed spec fn line(&self) -> Seq<CommandView> {
        commands_view(self.cmds@)
    }

    /// Whether every open loop points at a `loop` of the line.
    pub closed spec fn wf(&self) -> bool {
        &&& self.pos <= self.cmds@.len()
        &&& forall|k: int|
            0 <= k < self.frames@.len() ==> {
                let f = #[trigger] self.frames@[k];
                &&& f.0 < self.cmds@.len()
                &&& self.cmds@[f.0 as int] is Loop
            }
    }

    /// The commands that are still to run, in order.
    pub closed spec fn pending(&self) -> Seq<CommandView> {
        expand_from(self.line(), self.pos as int) + frames_pending(self.line(), self.frames@)
    }

    closed spec fn measure(&self) -> nat {
        cost_from(self.line(), self.pos as int) + frames_cost(self.line(), self.frames@)
    }

    /// A cursor at the start of the line `cmds`.
    pub fn new(cmds: Vec<Command>) -> (r: CommandCursor)
        ensures
            r.wf(),
            r.line() == commands_view(cmds@),
            r.pending() == expand(commands_view(cmds@)),
    {
        let r = CommandCursor { cmds, pos: 0, frames: Vec::new() };
        proof {
            assert(frames_pending(r.line(), r.frames@) =~= seq![]);
            assert(r.pending() =~= expand(commands_view(cmds@)));
        }
        r
    }

    /// The next command to run, or `None` when the line is done.
    pub fn next(&mut self) -> (r: Option<Command>)
        requires
            old(self).wf(),
        ensures
            final(self).wf(),
            final(self).line() == old(self).line(),
            r is None <==> old(self).pending().len() == 0,
            r is None ==> final(self).pending().len() == 0,
            r matches Some(c) ==> old(self).pending() == seq![c@] + final(self).pending(),
            r matches Some(c) ==> !(c@ is Loop),
    {
        let ghost start = self.pending();
        proof {
            lemma_expand_from_no_loop(self.line(), self.pos as int);
            lemma_frames_no_loop(self.line(), self.frames@);
            lemma_concat_loop_free(
                expand_from(self.line(), self.pos as int),
                frames_pending(self.line(), self.frames@),
            );
        }
        loop
            invariant
                self.wf(),
                self.line() == old(self).line(),
                self.pending() == start,
                start == old(self).pending(),
                loop_free(start),
            decreases self.measure(),
        {
            let ghost s = self.line();
            let ghost pos0 = self.pos as int;
            let ghost frames0 = self.frames@;
            let ghost m0 = self.measure();
            if self.pos < self.cmds.len() {
                let p = self.pos;
                assert(s[p as int] == self.cmds@[p as int]@);
                match &self.cmds[p] {
                    Command::Loop(n) => {
                        let n = *n;
                        if n == 0 {
                            self.pos = self.cmds.len();
                            proof {
                                assert(expand_from(s, pos0) =~= seq![]);
                                assert(expand_from(s, self.pos as int) =~= seq![]);
                            }
                        } else {
                            self.frames.push((p, n - 1));
                            self.pos = p + 1;
                            proof {
                                let c = cost_from(s, p + 1);
                                lemma_loop_cost(c, n as nat);
                                lemma_repeat_unfold(expand_from(s, p + 1), n as nat);
                                assert(self.frames@.drop_last() =~= frames0);
                                assert(self.frames@.last() == (p, (n - 1) as usize));
                                assert(self.pending() =~= start);
                            }
                        }
                    },
                    c => {
                        let c = c.copied();
                        self.pos = p + 1;
                        proof {
                            assert(c@ == s[p as int]);
                            assert(start =~= seq![c@] + self.pending());
                            assert(start[0] == c@);
                        }
                        return Some(c);
                    },
                }
            } else {
                let len = self.frames.len();
                if len == 0 {
                    proof {
                        assert(expand_from(s, pos0) =~= seq![]);
                        assert(start =~= seq![]);
                    }
                    return None;
                }
                let (p, r) = self.frames[len - 1];
                if r == 0 {
                    self.frames.pop();
                    proof {
                        assert(self.frames@ =~= frames0.drop_last());
                        assert(repeat(expand_from(s, p + 1), 0) =~= seq![]);
                        assert(expand_from(s, pos0) =~= seq![]);
                        assert(self.pending() =~= start);
                    }
                } else {
                    self.frames.set(len - 1, (p, r - 1));
                    self.pos = p + 1;
                    proof {
                        assert(self.frames@.drop_last() =~= frames0.drop_last());
                        assert(frames0.last() == (p, r));
                        lemma_repeat_unfold(expand_from(s, p + 1), r as nat);
                        lemma_loop_cost(cost_from(s, p + 1), r as nat);
                        assert(expand_from(s, pos0) =~= seq![]);
                        assert(self.pending() =~= start);
                    }
                }
            }
        }
    }
}

/// Why processing a line stopped.
#[derive(Debug, Clone, PartialEq)]
pub enum Error {
    /// A state the interpreter should never reach.
    Inner,
    Unimplemented,
    /// A refused command line.
    Line(lines::Error),
    /// An error raised by the file system or the QASM front end, by its report.
    Dyn(String),
    /// The interpreter is to stop with this exit code.
    Quit(i32),
}

/// The mathematical value of an [`Error`].
pub enum ErrorView {
    Inner,
    Unimplemented,
    Line(lines::ErrorView),
    Dyn(Seq<char>),
    Quit(i32),
}

impl View for Error {
    type V = ErrorView;

    open spec fn view(&self) -> ErrorView {
        match self {
            Error::Inner => ErrorView::Inner,
            Error::Unimplemented => ErrorView::Unimplemented,
            Error::Line(e) => ErrorView::Line(e@),
            Error::Dyn(s) => ErrorView::Dyn(s@),
            Error::Quit(n) => ErrorView::Quit(*n),
        }
    }
}

/// What a `tag` subcommand did, for the caller to act on.
#[derive(Debug, Clone, PartialEq)]
pub enum TagOutcome {
    /// The tags and their parents, to be shown.
    Listed(Vec<(String, String)>),
    /// A tag was made of the current changes; they now belong to it.
    Created,
    Removed,
    /// The head moved to another tag: the state is to be rebuilt from it.
    CheckedOut,
    /// The head moved to the root: the state is to be cleared.
    Reset,
    /// The reference text is to be shown.
    Help,
}

/// Whether two tag trees hold the same tags, parents, values and head.
pub open spec fn same_tree<T>(a: IntTree<T>, b: IntTree<T>) -> bool {
    &&& a.tags() == b.tags()
    &&& a.parents() == b.parents()
    &&& a.values() == b.values()
    &&& a.head() == b.head()
}

/// Whether `r` is the error `e` of the command line.
pub open spec fn is_line_error(r: Result<TagOutcome, Error>, e: lines::ErrorView) -> bool {
    r matches Err(err) && err@ == ErrorView::Line(e)
}

/// Carries out the `tag` subcommand `tag_cmd` on `int_tree`; `head` holds the
/// changes made since the current tag.
pub fn process_tag_cmd<T>(int_tree: &mut IntTree<T>, tag_cmd: int_tree::Command, head: T) -> (r:
    Result<TagOutcome, Error>)
    requires
        old(int_tree).wf(),
    ensures
        final(int_tree).wf(),
        match tag_cmd@ {
            int_tree::CommandView::List => {
                &&& same_tree(*final(int_tree), *old(int_tree))
                &&& r matches Ok(TagOutcome::Listed(k)) && int_tree::pairs_view(k@) == int_tree::keys_of(
                    old(int_tree).tags(),
                    old(int_tree).parents(),
                    old(int_tree).tags().len() as int,
                )
            },
            int_tree::CommandView::Create(t) => if old(int_tree).tags().contains(t) {
                &&& same_tree(*final(int_tree), *old(int_tree))
                &&& is_line_error(r, lines::ErrorView::ExistedTagName(t))
            } else {
                &&& r == Ok::<TagOutcome, Error>(TagOutcome::Created)
                &&& final(int_tree).tags() == old(int_tree).tags().push(t)
                &&& final(int_tree).parents() == old(int_tree).parents().push(old(int_tree).head())
                &&& final(int_tree).values() == old(int_tree).values().push(head)
                &&& final(int_tree).head() == Some(t)
            },
            int_tree::CommandView::Remove(t) => if old(int_tree).head() == Some(t) {
                &&& same_tree(*final(int_tree), *old(int_tree))
                &&& is_line_error(r, lines::ErrorView::TagIsHead(t))
            } else if old(int_tree).parents().contains(Some(t)) {
                &&& same_tree(*final(int_tree), *old(int_tree))
                &&& is_line_error(r, lines::ErrorView::TagIsParent(t))
            } else if !old(int_tree).tags().contains(t) {
                &&& same_tree(*final(int_tree), *old(int_tree))
                &&& is_line_error(r, lines::ErrorView::WrongTagName(t))
            } else {
                let k = int_tree::index_of(old(int_tree).tags(), t);
                &&& r == Ok::<TagOutcome, Error>(TagOutcome::Removed)
                &&& final(int_tree).tags() == old(int_tree).tags().remove(k)
                &&& final(int_tree).parents() == old(int_tree).parents().remove(k)
                &&& final(int_tree).values() == old(int_tree).values().remove(k)
                &&& final(int_tree).head() == old(int_tree).head()
            },
            int_tree::CommandView::Checkout(t) => if old(int_tree).tags().contains(t) {
                &&& r == Ok::<TagOutcome, Error>(TagOutcome::CheckedOut)
                &&& final(int_tree).tags() == old(int_tree).tags()
                &&& final(int_tree).parents() == old(int_tree).parents()
                &&& final(int_tree).values() == old(int_tree).values()
                &&& final(int_tree).head() == Some(t)
            } else {
                &&& same_tree(*final(int_tree), *old(int_tree))
                &&& is_line_error(r, lines::ErrorView::WrongTagName(t))
            },
            int_tree::CommandView::Reset => if old(int_tree).tags().contains(seq![]) {
                &&& r == Ok::<TagOutcome, Error>(TagOutcome::Reset)
                &&& final(int_tree).tags() == old(int_tree).tags()
                &&& final(int_tree).parents() == old(int_tree).parents()
                &&& final(int_tree).values() == old(int_tree).values()
                &&& final(int_tree).head() == Some(Seq::<char>::empty())
            } else {
                &&& same_tree(*final(int_tree), *old(int_tree))
                &&& r matches Err(e) && e@ == ErrorView::Inner
            },
            int_tree::CommandView::Help => {
                &&& same_tree(*final(int_tree), *old(int_tree))
                &&& r == Ok::<TagOutcome, Error>(TagOutcome::Help)
            },
        },
{
    match tag_cmd {
        int_tree::Command::List => {
            let k = int_tree.keys();
            Ok(TagOutcome::Listed(k))
        },
        int_tree::Command::Create(tag) => {
            if int_tree.commit(tag.as_str(), head) {
                Ok(TagOutcome::Created)
            } else {
                Err(Error::Line(lines::Error::ExistedTagName(tag)))
            }
        },
        int_tree::Command::Remove(tag) => match int_tree.remove(tag.as_str()) {
            RemoveStatus::Removed => Ok(TagOutcome::Removed),
            RemoveStatus::IsHead => Err(Error::Line(lines::Error::TagIsHead(tag))),
            RemoveStatus::IsParent => Err(Error::Line(lines::Error::TagIsParent(tag))),
            RemoveStatus::NotFound => Err(Error::Line(lines::Error::WrongTagName(tag))),
        },
        int_tree::Command::Checkout(tag) => {
            if int_tree.checkout(tag.as_str()) {
                Ok(TagOutcome::CheckedOut)
            } else {
                Err(Error::Line(lines::Error::WrongTagName(tag)))
            }
        },
        int_tree::Command::Reset => {
            let root = "";
            proof {
                reveal_strlit("");
                assert(root@ =~= Seq::<char>::empty());
            }
            if int_tree.checkout(root) {
                Ok(TagOutcome::Reset)
            } else {
                Err(Error::Inner)
            }
        },
        int_tree::Command::Help => Ok(TagOutcome::Help),
    }
}

/// The tag under which the state loaded from the file `path` is kept.
pub fn path_tag(path: &str) -> (s: String)
    ensures
        s@ == "file://"@ + path@,
{
    proof {
        reveal_strlit("");
    }
    concat3("file://", path, "")
}

} // verus!
