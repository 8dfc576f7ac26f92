//! The command shell's routing: which registered commands a line is for.

use vstd::prelude::*;

verus! {

/// A sub-command of a root command, and the number of arguments it takes.
#[derive(Clone, Copy, Debug)]
pub struct SubCommand {
    pub command: &'static str,
    pub args: usize,
}

/// A command that a receiver has registered: its first word, and the
/// sub-commands it knows.
#[derive(Debug)]
pub struct RootCommand {
    pub root: &'static str,
    pub sub: Vec<SubCommand>,
}

/// Why a command line was refused.
#[derive(Clone, Copy, Debug, PartialEq, Eq, Structural)]
pub enum ShellError {
    /// The line names a command but not its sub-command with the number of
    /// arguments that the sub-command takes.
    IncorrectArgs,
}

/// What one registered command makes of a command line.
#[derive(Clone, Copy, Debug, PartialEq, Eq, Structural)]
pub enum Outcome {
    /// The line is not for this command.
    Skip,
    /// The line goes to this command, and the commands after it are asked too.
    Deliver,
    /// The line goes to this command and to none after it.
    DeliverAndStop,
    /// The line is refused, and the commands after it are not asked.
    Reject,
}

/// Where a command line goes: the registered commands that receive it, by
/// their place in the order of registration, and whether the line was
/// accepted. A line may have reached some commands before a later one
/// refused it.
#[derive(Debug)]
pub struct Routing {
    pub deliveries: Vec<usize>,
    pub result: Result<(), ShellError>,
}

/// The words of a command line: the pieces between its spaces. Each space
/// parts two words, so two spaces in a row have an empty word between them,
/// and a line without a space is one word.
pub open spec fn words(text: Seq<char>) -> Seq<Seq<char>>
    decreases text.len(),
{
    if text.len() == 0 {
        seq![Seq::empty()]
    } else {
        let before = words(text.drop_last());
        if text.last() == ' ' {
            before.push(Seq::empty())
        } else {
            before.drop_last().push(before.last().push(text.last()))
        }
    }
}

/// A line has one word more than it has spaces, and no word holds a space.
pub proof fn lemma_words(text: Seq<char>)
    ensures
        words(text).len() == text.filter(|c: char| c == ' ').len() + 1,
        forall|i: int, j: int|
            0 <= i < words(text).len() && 0 <= j < words(text)[i].len() ==> words(text)[i][j]
                != ' ',
    decreases text.len(),
{
    let is_space = |c: char| c == ' ';
    if text.len() == 0 {
        assert(text.filter(is_space) =~= Seq::<char>::empty()) by {
            reveal(Seq::filter);
        }
    } else {
        lemma_words(text.drop_last());
        assert(text.filter(is_space) == if text.last() == ' ' {
            text.drop_last().filter(is_space).push(text.last())
        } else {
            text.drop_last().filter(is_space)
        }) by {
            reveal(Seq::filter);
        }
    }
}

/// Words put back into a line, a space between each two.
pub open spec fn join(parts: Seq<Seq<char>>) -> Seq<char>
    decreases parts.len(),
{
    if parts.len() == 0 {
        Seq::empty()
    } else if parts.len() == 1 {
        parts[0]
    } else {
        join(parts.drop_last()).push(' ') + parts.last()
    }
}

/// The words of a line, put back together, are the line.
pub proof fn lemma_words_join(text: Seq<char>)
    ensures
        words(text).len() >= 1,
        join(words(text)) == text,
    decreases text.len(),
{
    if text.len() == 0 {
        assert(join(words(text)) =~= text);
    } else {
        let before = words(text.drop_last());
        lemma_words_join(text.drop_last());
        if text.last() == ' ' {
            assert(words(text).drop_last() =~= before);
            assert(join(words(text)) =~= text);
        } else {
            let grown = before.drop_last().push(before.last().push(text.last()));
            assert(words(text) == grown);
            if before.len() == 1 {
                assert(join(grown) =~= text);
            } else {
                assert(grown.drop_last() =~= before.drop_last());
                assert(join(grown) =~= join(before).push(text.last()));
                assert(join(grown) =~= text);
            }
        }
    }
}

/// The views of the parts of a split line, in order.
pub open spec fn part_views(parts: Seq<&str>) -> Seq<Seq<char>> {
    Seq::new(parts.len(), |i: int| parts[i]@)
}

/// Whether two strings hold the same characters.
pub fn same_text(a: &str, b: &str) -> (same: bool)
    ensures
        same == (a@ == b@),
{
    let len: usize = a.unicode_len();
    if len != b.unicode_len() {
        return false;
    }
    let mut i: usize = 0;
    while i < len
        invariant
            i <= len,
            len == a@.len(),
            len == b@.len(),
            a@.take(i as int) == b@.take(i as int),
        decreases len - i,
    {
        if a.get_char(i) != b.get_char(i) {
            return false;
        }
        assert(a@.take(i + 1) =~= a@.take(i as int).push(a@[i as int]));
        assert(b@.take(i + 1) =~= b@.take(i as int).push(b@[i as int]));
        i += 1;
    }
    assert(a@.take(len as int) =~= a@);
    assert(b@.take(len as int) =~= b@);
    true
}

/// Splits a command line into its words.
pub fn split_command<'a>(raw_command: &'a str) -> (parts: Vec<&'a str>)
    ensures
        part_views(parts@) == words(raw_command@),
        parts@.len() >= 1,
{
    let ghost text = raw_command@;
    let len: usize = raw_command.unicode_len();
    let mut parts: Vec<&'a str> = Vec::new();
    let mut start: usize = 0;
    let mut i: usize = 0;
    assert(text.take(0) =~= Seq::<char>::empty());
    assert(part_views(parts@).push(text.subrange(0, 0)) =~= words(text.take(0)));
    while i < len
        invariant
            start <= i <= len,
            len == text.len(),
            text == raw_command@,
            part_views(parts@).push(text.subrange(start as int, i as int)) == words(
                text.take(i as int),
            ),
        decreases len - i,
    {
        let ghost before = words(text.take(i as int));
        let ghost done = part_views(parts@);
        assert(text.take(i + 1).drop_last() =~= text.take(i as int));
        assert(text.take(i + 1).last() == text[i as int]);
        if raw_command.get_char(i) == ' ' {
            let part = raw_command.substring_char(start, i);
            parts.push(part);
            assert(part_views(parts@) =~= done.push(text.subrange(start as int, i as int)));
            start = i + 1;
            assert(text.subrange(start as int, i + 1) =~= Seq::<char>::empty());
        } else {
            assert(before.drop_last() =~= done);
            assert(text.subrange(start as int, i + 1) =~= before.last().push(text[i as int]));
        }
        i += 1;
    }
    assert(text.take(len as int) =~= text);
    let ghost done = part_views(parts@);
    let part = raw_command.substring_char(start, len);
    parts.push(part);
    assert(part_views(parts@) =~= done.push(text.subrange(start as int, len as int)));
    parts
}

/// What `command` makes of a line of these words. The line is for the
/// command when its first word is the command's root. A line of that one
/// word goes to the command and no further. A longer line is held against
/// the first sub-command that the command knows, and against no other: it
/// goes through when its second word names that sub-command and the words
/// after it are as many as the sub-command takes, and is refused otherwise.
/// A command that knows no sub-command lets a longer line pass by.
pub open spec fn outcome(parts: Seq<Seq<char>>, command: RootCommand) -> Outcome {
    if command.root@ != parts[0] {
        Outcome::Skip
    } else if parts.len() == 1 {
        Outcome::DeliverAndStop
    } else if command.sub@.len() == 0 {
        Outcome::Skip
    } else if command.sub@[0].command@ == parts[1] && command.sub@[0].args + 2 == parts.len() {
        Outcome::Deliver
    } else {
        Outcome::Reject
    }
}

/// The commands among `commands[from..]` that a line of these words reaches,
/// asked in order until one stops or refuses the line, and whether the line
/// was accepted.
pub open spec fn route(parts: Seq<Seq<char>>, commands: Seq<RootCommand>, from: int) -> (
    Seq<usize>,
    Result<(), ShellError>,
)
    decreases commands.len() - from,
{
    if from < 0 || from >= commands.len() {
        (Seq::empty(), Ok(()))
    } else {
        match outcome(parts, commands[from]) {
            Outcome::Skip => route(parts, commands, from + 1),
            Outcome::Deliver => (
                seq![from as usize] + route(parts, commands, from + 1).0,
                route(parts, commands, from + 1).1,
            ),
            Outcome::DeliverAndStop => (seq![from as usize], Ok(())),
            Outcome::Reject => (Seq::empty(), Err(ShellError::IncorrectArgs)),
        }
    }
}

impl RootCommand {
    /// A command named `root` with these sub-commands.
    pub fn new(root: &'static str, sub: Vec<SubCommand>) -> (command: Self)
        ensures
            command.root == root,
            command.sub == sub,
    {
        RootCommand { root, sub }
    }

    /// What this command makes of a line split into `parts`.
    pub fn accepts(&self, parts: &Vec<&str>) -> (decision: Outcome)
        requires
            parts@.len() >= 1,
        ensures
            decision == outcome(part_views(parts@), *self),
    {
        if !same_text(self.root, parts[0]) {
            return Outcome::Skip;
        }
        if parts.len() == 1 {
            return Outcome::DeliverAndStop;
        }
        if self.sub.len() == 0 {
            return Outcome::Skip;
        }
        let subcmd = &self.sub[0];
        if same_text(subcmd.command, parts[1]) && subcmd.args == parts.len() - 2 {
            Outcome::Deliver
        } else {
            Outcome::Reject
        }
    }
}

/// Most commands that a shell keeps.
pub const MAX_COMMANDS: usize = 50;

/// The commands that receivers have registered, in the order in which they
/// came.
#[derive(Debug)]
pub struct Shell {
    pub commands: Vec<RootCommand>,
}

impl Shell {
    /// A shell with no command registered.
    pub fn new() -> (shell: Self)
        ensures
            shell.commands@.len() == 0,
    {
        Shell { commands: Vec::new() }
    }

    /// Registers `command` after those already there and gives its place
    /// among them. A shell that already keeps `MAX_COMMANDS` commands takes
    /// no more and stays as it is.
    pub fn register(&mut self, command: RootCommand) -> (place: Option<usize>)
        ensures
            match place {
                Some(index) => {
                    &&& old(self).commands@.len() < MAX_COMMANDS
                    &&& index == old(self).commands@.len()
                    &&& final(self).commands@ == old(self).commands@.push(command)
                },
                None => {
                    &&& old(self).commands@.len() >= MAX_COMMANDS
                    &&& final(self).commands@ == old(self).commands@
                },
            },
    {
        let index: usize = self.commands.len();
        if index < MAX_COMMANDS {
            self.commands.push(command);
            Some(index)
        } else {
            None
        }
    }

    /// Routes a command line: splits it into words and asks the registered
    /// commands in order, until one stops or refuses the line.
    pub fn send(&self, raw_command: &str) -> (routing: Routing)
        ensures
            (routing.deliveries@, routing.result) == route(
                words(raw_command@),
                self.commands@,
                0,
            ),
    {
        let parts = split_command(raw_command);
        let ghost all = route(words(raw_command@), self.commands@, 0);
        let mut deliveries: Vec<usize> = Vec::new();
        let mut index: usize = 0;
        assert(deliveries@ + all.0 =~= all.0);
        while index < self.commands.len()
            invariant
                index <= self.commands@.len(),
                parts@.len() >= 1,
                part_views(parts@) == words(raw_command@),
                all == route(words(raw_command@), self.commands@, 0),
                all.0 == deliveries@ + route(words(raw_command@), self.commands@, index as int).0,
                all.1 == route(words(raw_command@), self.commands@, index as int).1,
            decreases self.commands@.len() - index,
        {
            let ghost rest = route(words(raw_command@), self.commands@, index + 1);
            match self.commands[index].accepts(&parts) {
                Outcome::Skip => {},
                Outcome::Deliver => {
                    let ghost before = deliveries@;
                    deliveries.push(index);
                    assert(deliveries@ + rest.0 =~= before + (seq![index] + rest.0));
                },
                Outcome::DeliverAndStop => {
                    let ghost before = deliveries@;
                    deliveries.push(index);
                    assert(deliveries@ =~= before + seq![index]);
                    return Routing { deliveries, result: Ok(()) };
                },
                Outcome::Reject => {
                    assert(deliveries@ + Seq::<usize>::empty() =~= deliveries@);
                    return Routing { deliveries, result: Err(ShellError::IncorrectArgs) };
                },
            }
            index += 1;
        }
        assert(deliveries@ + Seq::<usize>::empty() =~= deliveries@);
        Routing { deliveries, result: Ok(()) }
    }
}

} // verus!
