//! Tags: named snapshots of the interpreter's state, each made on top of the
//! state current when it was made, so that they form a tree.
use vstd::prelude::*;
use crate::interpreter::{eq_lit, strings_view};
use crate::text::{concat3, debug_str, quoted};

verus! {

/// Why a `tag` subcommand was refused.
#[derive(Debug, Clone, PartialEq)]
pub enum Error {
    UnknownTagCmd(String),
    UnspecifiedTag,
}

/// The mathematical value of an [`Error`].
pub enum ErrorView {
    UnknownTagCmd(Seq<char>),
    UnspecifiedTag,
}

impl View for Error {
    type V = ErrorView;

    open spec fn view(&self) -> ErrorView {
        match self {
            Error::UnknownTagCmd(s) => ErrorView::UnknownTagCmd(s@),
            Error::UnspecifiedTag => ErrorView::UnspecifiedTag,
        }
    }
}

impl ErrorView {
    /// The text that reports the error.
    pub open spec fn message(self) -> Seq<char> {
        match self {
            ErrorView::UnknownTagCmd(c) => "Unknown Tag subcommand "@ + debug_str(c),
            ErrorView::UnspecifiedTag => "Tag name should be specified"@,
        }
    }
}

impl Error {
    /// The text that reports the error.
    pub fn message(&self) -> (s: String)
        ensures
            s@ == self@.message(),
    {
        proof {
            reveal_strlit("");
        }
        match self {
            Error::UnknownTagCmd(c) => {
                let q = quoted(c.as_str());
                concat3("Unknown Tag subcommand ", q.as_str(), "")
            },
            Error::UnspecifiedTag => concat3("Tag name should be specified", "", ""),
        }
    }
}

/// The reference text of the `tag` command.
pub const HELP: &'static str = "QVNT Interpreter Tag command

USAGE:
    :tag [SUBCOMMANDS...]

SUBCOMMANDS:
    ls          Show the list of previously created tags
    mk TAG      Create TAG with current state
    ch TAG      Swap current state to TAG's state
    rm TAG      Remove TAG from tree
    help|h|?    Show this reference
";

/// A `tag` subcommand.
#[derive(Clone, Debug, PartialEq)]
pub enum Command {
    List,
    Create(String),
    Remove(String),
    Checkout(String),
    Reset,
    Help,
}

/// The mathematical value of a [`Command`].
pub enum CommandView {
    List,
    Create(Seq<char>),
    Remove(Seq<char>),
    Checkout(Seq<char>),
    Reset,
    Help,
}

impl View for Command {
    type V = CommandView;

    open spec fn view(&self) -> CommandView {
        match self {
            Command::List => CommandView::List,
            Command::Create(s) => CommandView::Create(s@),
            Command::Remove(s) => CommandView::Remove(s@),
            Command::Checkout(s) => CommandView::Checkout(s@),
            Command::Reset => CommandView::Reset,
            Command::Help => CommandView::Help,
        }
    }
}

/// The subcommand that starts the words `w`, and how many words it takes, or why
/// there is none.
pub open spec fn parse_command_spec(w: Seq<Seq<char>>) -> Result<(CommandView, nat), ErrorView> {
    if w.len() == 0 {
        Ok((CommandView::List, 0))
    } else {
        let c = w[0];
        if c == "ls"@ {
            Ok((CommandView::List, 1))
        } else if c == "mk"@ {
            if w.len() > 1 { Ok((CommandView::Create(w[1]), 2)) } else { Err(ErrorView::UnspecifiedTag) }
        } else if c == "rm"@ {
            if w.len() > 1 { Ok((CommandView::Remove(w[1]), 2)) } else { Err(ErrorView::UnspecifiedTag) }
        } else if c == "ch"@ {
            if w.len() > 1 { Ok((CommandView::Checkout(w[1]), 2)) } else { Err(ErrorView::UnspecifiedTag) }
        } else if c == "reset"@ {
            Ok((CommandView::Reset, 1))
        } else if c == "help"@ || c == "h"@ || c == "?"@ {
            Ok((CommandView::Help, 1))
        } else {
            Err(ErrorView::UnknownTagCmd(c))
        }
    }
}

/// The keyword table of the `tag` help text: `ls` lists the tags, `reset`
/// goes back to the root, `help|h|?` shows the reference, each taking one
/// word; `mk`, `rm` and `ch` create, remove and check out the tag named by the
/// next word, taking two, and are refused with no next word; and only these
/// words do so.
pub proof fn lemma_tag_keywords(w: Seq<char>, t: Seq<char>)
    ensures
        (parse_command_spec(seq![w]) == Ok::<(CommandView, nat), ErrorView>((CommandView::List, 1)))
            <==> w == "ls"@,
        (parse_command_spec(seq![w]) == Ok::<(CommandView, nat), ErrorView>((CommandView::Reset, 1)))
            <==> w == "reset"@,
        (parse_command_spec(seq![w]) == Ok::<(CommandView, nat), ErrorView>((CommandView::Help, 1)))
            <==> (w == "help"@ || w == "h"@ || w == "?"@),
        (parse_command_spec(seq![w]) == Err::<(CommandView, nat), ErrorView>(ErrorView::UnspecifiedTag))
            <==> (w == "mk"@ || w == "rm"@ || w == "ch"@),
        (parse_command_spec(seq![w, t]) == Ok::<(CommandView, nat), ErrorView>((CommandView::Create(t), 2)))
            <==> w == "mk"@,
        (parse_command_spec(seq![w, t]) == Ok::<(CommandView, nat), ErrorView>((CommandView::Remove(t), 2)))
            <==> w == "rm"@,
        (parse_command_spec(seq![w, t]) == Ok::<(CommandView, nat), ErrorView>((CommandView::Checkout(t), 2)))
            <==> w == "ch"@,
{
    reveal_strlit("ls");
    reveal_strlit("mk");
    reveal_strlit("rm");
    reveal_strlit("ch");
    reveal_strlit("reset");
    reveal_strlit("help");
    reveal_strlit("h");
    reveal_strlit("?");
    assert("ls"@.len() == 2 && "ls"@[0] == 'l' && "ls"@[1] == 's');
    assert("mk"@.len() == 2 && "mk"@[0] == 'm' && "mk"@[1] == 'k');
    assert("rm"@.len() == 2 && "rm"@[0] == 'r' && "rm"@[1] == 'm');
    assert("ch"@.len() == 2 && "ch"@[0] == 'c' && "ch"@[1] == 'h');
    assert("reset"@.len() == 5 && "reset"@[0] == 'r' && "reset"@[1] == 'e');
    assert("help"@.len() == 4 && "help"@[0] == 'h' && "help"@[1] == 'e');
    assert("h"@.len() == 1 && "h"@[0] == 'h');
    assert("?"@.len() == 1 && "?"@[0] == '?');
}

impl Command {
    /// A copy of the subcommand.
    pub(crate) fn copied(&self) -> (r: Command)
        ensures
            r@ == self@,
    {
        match self {
            Command::List => Command::List,
            Command::Create(t) => Command::Create(t.clone()),
            Command::Remove(t) => Command::Remove(t.clone()),
            Command::Checkout(t) => Command::Checkout(t.clone()),
            Command::Reset => Command::Reset,
            Command::Help => Command::Help,
        }
    }

    /// Reads the subcommand at word `*source_pos` of `source`, and moves
    /// `*source_pos` past the words it takes; on an error, past the one word
    /// it read.
    pub fn parse_command(source: &Vec<String>, source_pos: &mut usize) -> (r: Result<Command, Error>)
        requires
            *old(source_pos) <= source@.len(),
        ensures
            match parse_command_spec(strings_view(source@).skip(*old(source_pos) as int)) {
                Ok((c, n)) => r matches Ok(rc) && rc@ == c && *final(source_pos) == *old(source_pos) + n,
                Err(e) => r matches Err(re) && re@ == e && *final(source_pos) == *old(source_pos) + 1,
            },
            *final(source_pos) <= source@.len(),
    {
        let ghost w = strings_view(source@).skip(*source_pos as int);
        let i = *source_pos;
        if i >= source.len() {
            proof {
                assert(w.len() == 0);
            }
            return Ok(Command::List);
        }
        let t = source[i].as_str();
        proof {
            assert(w[0] == t@);
            assert(w.len() > 1 ==> w[1] == source@[i + 1]@);
        }
        if eq_lit(t, "ls") {
            *source_pos = i + 1;
            Ok(Command::List)
        } else if eq_lit(t, "mk") || eq_lit(t, "rm") || eq_lit(t, "ch") {
            if i + 1 < source.len() {
                let arg = source[i + 1].clone();
                *source_pos = i + 2;
                if eq_lit(t, "mk") {
                    Ok(Command::Create(arg))
                } else if eq_lit(t, "rm") {
                    Ok(Command::Remove(arg))
                } else {
                    Ok(Command::Checkout(arg))
                }
            } else {
                *source_pos = i + 1;
                Err(Error::UnspecifiedTag)
            }
        } else if eq_lit(t, "reset") {
            *source_pos = i + 1;
            Ok(Command::Reset)
        } else if eq_lit(t, "help") || eq_lit(t, "h") || eq_lit(t, "?") {
            *source_pos = i + 1;
            Ok(Command::Help)
        } else {
            *source_pos = i + 1;
            Err(Error::UnknownTagCmd(source[i].clone()))
        }
    }
}

/// The character contents of a list of pairs of strings.
pub open spec fn pairs_view(v: Seq<(String, String)>) -> Seq<(Seq<char>, Seq<char>)> {
    v.map_values(|p: (String, String)| (p.0@, p.1@))
}

/// What `remove` did, or why it did nothing.
#[derive(Debug, Clone, Copy, PartialEq, Eq, Structural)]
pub enum RemoveStatus {
    Removed,
    NotFound,
    IsParent,
    IsHead,
}

/// A tag: its name, the tag it was made on top of, and what it holds.
pub struct TagEntry<T> {
    tag: String,
    parent: Option<String>,
    value: T,
}

/// A tree of tags, with one of them as the current head.
pub struct IntTree<T> {
    head: Option<String>,
    entries: Vec<TagEntry<T>>,
}

/// The position of the tag `t` in `tags`.
pub open spec fn index_of(tags: Seq<Seq<char>>, t: Seq<char>) -> int {
    choose|j: int| 0 <= j < tags.len() && tags[j] == t
}

/// Tags are distinct, each parent is an earlier tag, and the head is a tag.
pub open spec fn tree_wf(
    tags: Seq<Seq<char>>,
    parents: Seq<Option<Seq<char>>>,
    head: Option<Seq<char>>,
) -> bool {
    &&& tags.len() == parents.len()
    &&& forall|i: int, j: int| 0 <= i < j < tags.len() ==> tags[i] != tags[j]
    &&& forall|i: int|
        0 <= i < parents.len() && (#[trigger] parents[i]) is Some ==> tags.contains(parents[i]->0)
            && index_of(tags, parents[i]->0) < i
    &&& head matches Some(h) ==> tags.contains(h)
}

/// The positions of the tags from the root down to the tag at `i`.
pub open spec fn chain(tags: Seq<Seq<char>>, parents: Seq<Option<Seq<char>>>, i: int) -> Seq<int>
    decreases i,
{
    if i < 0 || i >= parents.len() {
        seq![]
    } else {
        match parents[i] {
            None => seq![i],
            Some(p) => {
                let j = index_of(tags, p);
                if 0 <= j < i {
                    chain(tags, parents, j).push(i)
                } else {
                    seq![i]
                }
            },
        }
    }
}

/// The pairs (tag, parent) of the tags that have a parent, among the first `n`.
pub open spec fn keys_of(tags: Seq<Seq<char>>, parents: Seq<Option<Seq<char>>>, n: int) -> Seq<
    (Seq<char>, Seq<char>),
>
    decreases n,
{
    if n <= 0 {
        seq![]
    } else {
        keys_of(tags, parents, n - 1) + match parents[n - 1] {
            Some(p) => seq![(tags[n - 1], p)],
            None => seq![],
        }
    }
}

/// The position of a present tag is where it stands.
pub proof fn lemma_index_of(tags: Seq<Seq<char>>, i: int)
    requires
        0 <= i < tags.len(),
        forall|a: int, b: int| 0 <= a < b < tags.len() ==> tags[a] != tags[b],
    ensures
        index_of(tags, tags[i]) == i,
{
    let j = index_of(tags, tags[i]);
    assert(0 <= j < tags.len() && tags[j] == tags[i]);
}

proof fn lemma_chain_prefix(
    tags: Seq<Seq<char>>,
    parents: Seq<Option<Seq<char>>>,
    t: Seq<char>,
    p: Option<Seq<char>>,
    k: int,
)
    requires
        tree_wf(tags, parents, None),
        !tags.contains(t),
        0 <= k < tags.len(),
    ensures
        chain(tags.push(t), parents.push(p), k) == chain(tags, parents, k),
        forall|x: int| 0 <= x < chain(tags, parents, k).len() ==> 0 <= #[trigger] chain(tags, parents, k)[x] <= k,
    decreases k,
{
    let tags2 = tags.push(t);
    let parents2 = parents.push(p);
    assert(parents2[k] == parents[k]);
    match parents[k] {
        None => {},
        Some(q) => {
            let j = index_of(tags, q);
            assert(tags.contains(q));
            assert(0 <= j < k);
            assert(tags[j] == q);
            assert forall|a: int, b: int| 0 <= a < b < tags2.len() implies tags2[a] != tags2[b] by {
                if b == tags.len() {
                    assert(tags2[a] == tags[a]);
                }
            }
            assert(tags2[j] == q);
            lemma_index_of(tags2, j);
            lemma_chain_prefix(tags, parents, t, p, j);
        },
    }
}

/// Committing a tag puts the committed value at the end of the values from
/// the root to the head, after those that led to the former head.
pub proof fn lemma_commit_extends<T>(before: IntTree<T>, after: IntTree<T>, t: Seq<char>, v: T)
    requires
        before.wf(),
        !before.tags().contains(t),
        after.tags() == before.tags().push(t),
        after.parents() == before.parents().push(before.head()),
        after.values() == before.values().push(v),
        after.head() == Some(t),
    ensures
        after.head_values() == before.head_values().push(v),
{
    let tags = before.tags();
    let parents = before.parents();
    let n = tags.len() as int;
    let tags2 = after.tags();
    assert forall|a: int, b: int| 0 <= a < b < tags2.len() implies tags2[a] != tags2[b] by {
        if b == n {
            assert(tags2[a] == tags[a]);
        }
    }
    assert(tags2[n] == t);
    lemma_index_of(tags2, n);
    assert(tree_wf(tags, parents, None));
    match before.head() {
        None => {
            assert(chain(tags2, after.parents(), n) =~= seq![n]);
            assert(before.head_values() =~= Seq::<T>::empty());
            assert(after.head_values() =~= seq![v]);
        },
        Some(h) => {
            let k = index_of(tags, h);
            assert(tags.contains(h));
            assert(0 <= k < n && tags[k] == h);
            assert(tags2[k] == h);
            lemma_index_of(tags2, k);
            lemma_chain_prefix(tags, parents, t, before.head(), k);
            let c = chain(tags, parents, k);
            assert(chain(tags2, after.parents(), n) == c.push(n));
            assert(after.head_values() =~= before.head_values().push(v)) by {
                assert forall|x: int| 0 <= x < c.len() implies after.values()[#[trigger] c[x]]
                    == before.values()[c[x]] by {
                    assert(0 <= c[x] <= k);
                }
            }
        },
    }
}

impl<T> IntTree<T> {
    /// The tags, in the order they were made.
    pub closed spec fn tags(&self) -> Seq<Seq<char>> {
        self.entries@.map_values(|e: TagEntry<T>| e.tag@)
    }

    /// The parent of each tag.
    pub closed spec fn parents(&self) -> Seq<Option<Seq<char>>> {
        self.entries@.map_values(
            |e: TagEntry<T>|
                match e.parent {
                    Some(p) => Some(p@),
                    None => None,
                },
        )
    }

    /// What each tag holds.
    pub closed spec fn values(&self) -> Seq<T> {
        self.entries@.map_values(|e: TagEntry<T>| e.value)
    }

    /// The current head tag.
    pub closed spec fn head(&self) -> Option<Seq<char>> {
        match self.head {
            Some(h) => Some(h@),
            None => None,
        }
    }

    /// Whether the tree is well formed.
    pub open spec fn wf(&self) -> bool {
        tree_wf(self.tags(), self.parents(), self.head())
    }

    /// The positions of the tags from the root down to the head.
    pub open spec fn head_chain(&self) -> Seq<int> {
        match self.head() {
            Some(h) => chain(self.tags(), self.parents(), index_of(self.tags(), h)),
            None => seq![],
        }
    }

    /// The values of the tags from the root down to the head, root first.
    pub open spec fn head_values(&self) -> Seq<T> {
        self.head_chain().map_values(|k: int| self.values()[k])
    }

    /// A tree holding the one tag `root`, with `value`, as head.
    pub fn with_root(root: String, value: T) -> (r: IntTree<T>)
        ensures
            r.wf(),
            r.tags() == seq![root@],
            r.parents() == seq![None::<Seq<char>>],
            r.values() == seq![value],
            r.head() == Some(root@),
    {
        let head = Some(root.clone());
        let mut entries: Vec<TagEntry<T>> = Vec::new();
        entries.push(TagEntry { tag: root, parent: None, value });
        let r = IntTree { head, entries };
        proof {
            assert(r.tags() =~= seq![root@]);
            assert(r.parents() =~= seq![None::<Seq<char>>]);
            assert(r.values() =~= seq![value]);
            assert(r.tags()[0] == root@);
        }
        r
    }

    /// The position of the tag `tag`, if there is one.
    pub fn find(&self, tag: &str) -> (r: Option<usize>)
        requires
            self.wf(),
        ensures
            r is Some <==> self.tags().contains(tag@),
            r matches Some(i) ==> i < self.tags().len() && self.tags()[i as int] == tag@ && index_of(
                self.tags(),
                tag@,
            ) == i,
    {
        let mut i: usize = 0;
        while i < self.entries.len()
            invariant
                self.wf(),
                i <= self.entries@.len(),
                self.tags().len() == self.entries@.len(),
                forall|k: int| 0 <= k < i ==> self.tags()[k] != tag@,
            decreases self.entries@.len() - i,
        {
            if eq_lit(self.entries[i].tag.as_str(), tag) {
                proof {
                    assert(self.tags()[i as int] == tag@);
                    lemma_index_of(self.tags(), i as int);
                }
                return Some(i);
            }
            i = i + 1;
        }
        proof {
            if self.tags().contains(tag@) {
                let k = choose|k: int| 0 <= k < self.tags().len() && self.tags()[k] == tag@;
                assert(self.tags()[k] != tag@);
            }
        }
        None
    }

    /// The pairs (tag, parent) of every tag made on top of another, in the order made.
    pub fn keys(&self) -> (r: Vec<(String, String)>)
        requires
            self.wf(),
        ensures
            pairs_view(r@) == keys_of(
                self.tags(),
                self.parents(),
                self.tags().len() as int,
            ),
    {
        let mut r: Vec<(String, String)> = Vec::new();
        let mut i: usize = 0;
        while i < self.entries.len()
            invariant
                i <= self.entries@.len(),
                self.tags().len() == self.entries@.len(),
                self.parents().len() == self.entries@.len(),
                pairs_view(r@) == keys_of(
                    self.tags(),
                    self.parents(),
                    i as int,
                ),
            decreases self.entries@.len() - i,
        {
            let ghost before = pairs_view(r@);
            let e = &self.entries[i];
            match &e.parent {
                Some(p) => {
                    r.push((e.tag.clone(), p.clone()));
                    proof {
                        assert(pairs_view(r@) =~= before + seq![
                            (self.tags()[i as int], self.parents()[i as int]->0),
                        ]);
                    }
                },
                None => {
                    proof {
                        assert(before + Seq::<(Seq<char>, Seq<char>)>::empty() =~= before);
                    }
                },
            }
            i = i + 1;
        }
        r
    }

    /// Makes the tag `tag`, holding `change`, on top of the head, and makes it the
    /// head; does nothing and returns `false` when the tag already exists.
    pub fn commit(&mut self, tag: &str, change: T) -> (r: bool)
        requires
            old(self).wf(),
        ensures
            final(self).wf(),
            r == !old(self).tags().contains(tag@),
            r ==> final(self).tags() == old(self).tags().push(tag@) && final(self).parents()
                == old(self).parents().push(old(self).head()) && final(self).values() == old(self).values().push(change) && final(self).head() == Some(tag@),
            !r ==> final(self).tags() == old(self).tags() && final(self).parents() == old(self).parents() && final(self).values() == old(self).values() && final(self).head()
                == old(self).head(),
    {
        if self.find(tag).is_some() {
            return false;
        }
        let mut name = String::new();
        crate::text::push_str(&mut name, tag);
        let old_head = match &self.head {
            Some(h) => Some(h.clone()),
            None => None,
        };
        let ghost old_tags = self.tags();
        let ghost old_parents = self.parents();
        self.entries.push(TagEntry { tag: name.clone(), parent: old_head, value: change });
        self.head = Some(name);
        proof {
            assert(self.tags() =~= old_tags.push(tag@));
            assert(self.parents() =~= old_parents.push(old(self).head()));
            assert(self.values() =~= old(self).values().push(change));
            let tags = self.tags();
            let n = old_tags.len() as int;
            assert forall|i: int| 0 <= i < self.parents().len() && (#[trigger] self.parents()[i]) is Some implies tags.contains(self.parents()[i]->0)
                && index_of(tags, self.parents()[i]->0) < i by {
                let p = self.parents()[i]->0;
                let k = index_of(old_tags, p);
                if i < n {
                    assert(old_tags.contains(p));
                    assert(tags[k] == p);
                    lemma_index_of(tags, k);
                } else {
                    let h = old(self).head()->0;
                    assert(old_tags.contains(h));
                    let kh = choose|k: int| 0 <= k < old_tags.len() && old_tags[k] == h;
                    assert(tags[kh] == h);
                    lemma_index_of(tags, kh);
                }
            }
            assert(tags[n] == tag@);
        }
        true
    }

    /// Makes the tag `tag` the head; returns `false` and does nothing when there is no such tag.
    pub fn checkout(&mut self, tag: &str) -> (r: bool)
        requires
            old(self).wf(),
        ensures
            final(self).wf(),
            r == old(self).tags().contains(tag@),
            final(self).tags() == old(self).tags(),
            final(self).parents() == old(self).parents(),
            final(self).values() == old(self).values(),
            final(self).head() == if r { Some(tag@) } else { old(self).head() },
    {
        match self.find(tag) {
            Some(i) => {
                let name = self.entries[i].tag.clone();
                self.head = Some(name);
                true
            },
            None => false,
        }
    }

    /// What the tags from the root down to the head hold, in that order.
    pub fn collect_to_head(&self) -> (r: Option<Vec<&T>>)
        requires
            self.wf(),
        ensures
            r is Some <==> self.head() is Some,
            r matches Some(v) ==> v@.len() == self.head_values().len() && forall|k: int|
                0 <= k < v@.len() ==> *v@[k] == self.head_values()[k],
            r matches Some(v) ==> {
                let c = chain(self.tags(), self.parents(), index_of(self.tags(), self.head()->0));
                &&& v@.len() == c.len()
                &&& forall|k: int| 0 <= k < c.len() ==> *v@[k] == self.values()[c[k]]
            },
    {
        let h = match &self.head {
            Some(h) => h,
            None => return None,
        };
        let mut i = match self.find(h.as_str()) {
            Some(i) => i,
            None => return None,
        };
        let ghost tags = self.tags();
        let ghost parents = self.parents();
        let ghost values = self.values();
        let ghost full = chain(tags, parents, i as int);
        let ghost mut suffix: Seq<int> = seq![];
        let mut out: Vec<&T> = Vec::new();
        proof {
            assert(full =~= chain(tags, parents, i as int) + suffix);
        }
        loop
            invariant
                self.wf(),
                self.head() is Some,
                full == chain(tags, parents, index_of(tags, self.head()->0)),
                tags == self.tags(),
                parents == self.parents(),
                values == self.values(),
                i < tags.len(),
                full == chain(tags, parents, i as int) + suffix,
                out@.len() == suffix.len(),
                forall|k: int| 0 <= k < suffix.len() ==> 0 <= #[trigger] suffix[k] < values.len(),
                forall|k: int| 0 <= k < suffix.len() ==> *out@[k] == values[#[trigger] suffix[k]],
            decreases i,
        {
            let e = &self.entries[i];
            out.insert(0, &e.value);
            proof {
                assert(values[i as int] == e.value);
            }
            match &e.parent {
                None => {
                    proof {
                        assert(parents[i as int] is None);
                        let ns = seq![i as int] + suffix;
                        assert(full =~= ns);
                        assert forall|k: int| 0 <= k < ns.len() implies *out@[k] == values[#[trigger] ns[k]] by {
                            if k > 0 {
                                assert(ns[k] == suffix[k - 1]);
                            }
                        }
                    }
                    return Some(out);
                },
                Some(p) => {
                    let ghost pi = i as int;
                    proof {
                        assert(parents[pi] == Some(p@));
                    }
                    let j = self.find(p.as_str()).unwrap();
                    proof {
                        let ns = seq![pi] + suffix;
                        assert(chain(tags, parents, pi) == chain(tags, parents, j as int).push(pi));
                        assert(full =~= chain(tags, parents, j as int) + ns);
                        assert forall|k: int| 0 <= k < ns.len() implies *out@[k] == values[#[trigger] ns[k]] by {
                            if k > 0 {
                                assert(ns[k] == suffix[k - 1]);
                            }
                        }
                        suffix = ns;
                    }
                    i = j;
                },
            }
        }
    }

    /// Removes the tag `tag`, unless it is the head, the parent of another tag, or absent.
    pub fn remove(&mut self, tag: &str) -> (r: RemoveStatus)
        requires
            old(self).wf(),
        ensures
            final(self).wf(),
            r == if old(self).head() == Some(tag@) {
                RemoveStatus::IsHead
            } else if old(self).parents().contains(Some(tag@)) {
                RemoveStatus::IsParent
            } else if !old(self).tags().contains(tag@) {
                RemoveStatus::NotFound
            } else {
                RemoveStatus::Removed
            },
            r == RemoveStatus::Removed ==> {
                let k = index_of(old(self).tags(), tag@);
                &&& final(self).tags() == old(self).tags().remove(k)
                &&& final(self).parents() == old(self).parents().remove(k)
                &&& final(self).values() == old(self).values().remove(k)
                &&& final(self).head() == old(self).head()
            },
            r != RemoveStatus::Removed ==> final(self).tags() == old(self).tags() && final(self).parents() == old(self).parents() && final(self).values() == old(self).values()
                && final(self).head() == old(self).head(),
    {
        if let Some(h) = &self.head {
            if eq_lit(h.as_str(), tag) {
                return RemoveStatus::IsHead;
            }
        }
        let ghost parents = self.parents();
        let mut i: usize = 0;
        while i < self.entries.len()
            invariant
                self.wf(),
                old(self).head() != Some(tag@),
                self.tags() == old(self).tags(),
                self.parents() == old(self).parents(),
                self.values() == old(self).values(),
                self.head() == old(self).head(),
                i <= self.entries@.len(),
                parents == self.parents(),
                parents.len() == self.entries@.len(),
                forall|k: int| 0 <= k < i ==> parents[k] != Some(tag@),
            decreases self.entries@.len() - i,
        {
            if let Some(p) = &self.entries[i].parent {
                if eq_lit(p.as_str(), tag) {
                    proof {
                        assert(parents[i as int] == Some(tag@));
                    }
                    return RemoveStatus::IsParent;
                }
            }
            i = i + 1;
        }
        proof {
            if parents.contains(Some(tag@)) {
                let k = choose|k: int| 0 <= k < parents.len() && parents[k] == Some(tag@);
                assert(parents[k] != Some(tag@));
            }
        }
        let idx = match self.find(tag) {
            Some(idx) => idx,
            None => return RemoveStatus::NotFound,
        };
        let ghost old_tags = self.tags();
        let ghost old_values = self.values();
        self.entries.remove(idx);
        proof {
            let tags = self.tags();
            let k = idx as int;
            assert(tags =~= old_tags.remove(k));
            assert(self.parents() =~= parents.remove(k));
            assert(self.values() =~= old_values.remove(k));
            assert forall|a: int, b: int| 0 <= a < b < tags.len() implies tags[a] != tags[b] by {
                let oa = if a < k { a } else { a + 1 };
                let ob = if b < k { b } else { b + 1 };
                assert(tags[a] == old_tags[oa]);
                assert(tags[b] == old_tags[ob]);
            }
            assert forall|i: int| 0 <= i < self.parents().len() && (#[trigger] self.parents()[i]) is Some implies tags.contains(self.parents()[i]->0)
                && index_of(tags, self.parents()[i]->0) < i by {
                let oi = if i < k { i } else { i + 1 };
                let p = self.parents()[i]->0;
                assert(parents[oi] == Some(p));
                let j = index_of(old_tags, p);
                assert(old_tags[j] == p);
                assert(j != k);
                let nj = if j < k { j } else { j - 1 };
                assert(tags[nj] == p);
                lemma_index_of(tags, nj);
            }
            if let Some(h) = self.head() {
                let j = choose|j: int| 0 <= j < old_tags.len() && old_tags[j] == h;
                assert(j != k);
                let nj = if j < k { j } else { j - 1 };
                assert(tags[nj] == h);
            }
        }
        RemoveStatus::Removed
    }
}

} // verus!
