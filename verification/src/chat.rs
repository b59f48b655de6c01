//! The texts of a conversation with a language model: the turns that are
//! sent to the model, and the reply as it is shown while the model is still
//! writing.

use vstd::prelude::*;
use vstd::string::*;

verus! {

/// The mark at the end of a reply that is still being written.
pub const WORKING_INDICATOR: &'static str = "`<...>`";

/// The mark at the end of a reply that is complete.
pub const END_INDICATOR: &'static str = "`<DONE>`";

/// Who speaks in a turn of the conversation.
#[derive(Clone, Copy, Debug, PartialEq, Eq, Structural)]
pub enum Role {
    User,
    Model,
}

/// One message of the chain of replies that led to a question.
#[derive(Clone, Debug, PartialEq, Eq)]
pub struct Said {
    /// Whether an automated actor wrote the message.
    pub by_bot: bool,
    pub content: String,
}

/// A `Said` as the contracts see it.
pub struct SaidView {
    pub by_bot: bool,
    pub content: Seq<char>,
}

impl View for Said {
    type V = SaidView;

    open spec fn view(&self) -> SaidView {
        SaidView { by_bot: self.by_bot, content: self.content@ }
    }
}

/// One turn of the conversation as it is sent to the model.
#[derive(Clone, Debug, PartialEq, Eq)]
pub struct Turn {
    pub role: Role,
    pub text: String,
}

/// A `Turn` as the contracts see it.
pub struct TurnView {
    pub role: Role,
    pub text: Seq<char>,
}

impl View for Turn {
    type V = TurnView;

    open spec fn view(&self) -> TurnView {
        TurnView { role: self.role, text: self.text@ }
    }
}

/// The messages of a chain as the contracts see them.
pub open spec fn said_views(chain: Seq<Said>) -> Seq<SaidView> {
    chain.map_values(|said: Said| said@)
}

/// The turns of a conversation as the contracts see them.
pub open spec fn turn_views(turns: Seq<Turn>) -> Seq<TurnView> {
    turns.map_values(|turn: Turn| turn@)
}

/// Whether `text` ends with `suffix`.
pub open spec fn ends_with(text: Seq<char>, suffix: Seq<char>) -> bool {
    suffix.len() <= text.len() && text.subrange(text.len() - suffix.len(), text.len() as int)
        == suffix
}

/// `text` without `suffix` at its end, as often as it stands there.
pub open spec fn spec_strip_end(text: Seq<char>, suffix: Seq<char>) -> Seq<char>
    decreases text.len(),
{
    if suffix.len() > 0 && ends_with(text, suffix) {
        spec_strip_end(text.take(text.len() - suffix.len()), suffix)
    } else {
        text
    }
}

/// The turn that a message of the chain makes: what an automated actor wrote
/// is the model's, all else the user's, and the mark of a complete reply is
/// taken off the end.
pub open spec fn spec_turn(said: SaidView) -> TurnView {
    TurnView {
        role: if said.by_bot {
            Role::Model
        } else {
            Role::User
        },
        text: spec_strip_end(said.content, END_INDICATOR@),
    }
}

/// The conversation that a question makes with the chain of replies it
/// stands in. `earlier` is the chain from the message that the question
/// replies to back to the first one. The turns go from the first message to
/// the question, and the prompt, where there is one, stands before the text
/// of the first turn.
pub open spec fn spec_conversation(
    question: Seq<char>,
    earlier: Seq<SaidView>,
    prompt: Option<Seq<char>>,
) -> Seq<TurnView> {
    let back = seq![TurnView { role: Role::User, text: question }] + earlier.map_values(
        |said: SaidView| spec_turn(said),
    );
    let turns = Seq::new(back.len(), |i: int| back[back.len() - 1 - i]);
    match prompt {
        Some(prompt) => turns.update(
            0,
            TurnView { role: turns[0].role, text: prompt + turns[0].text },
        ),
        None => turns,
    }
}

/// Whether `text` ends with `suffix`.
pub fn has_suffix(text: &str, suffix: &str) -> (found: bool)
    ensures
        found == ends_with(text@, suffix@),
{
    let len = text.unicode_len();
    let width = suffix.unicode_len();
    if width > len {
        return false;
    }
    let from: usize = len - width;
    let mut i: usize = 0;
    while i < width
        invariant
            i <= width,
            width == suffix@.len(),
            len == text@.len(),
            from == len - width,
            forall|k: int| 0 <= k < i ==> text@[from + k] == suffix@[k],
        decreases width - i,
    {
        if text.get_char(from + i) != suffix.get_char(i) {
            assert(text@.subrange(from as int, len as int)[i as int] != suffix@[i as int]);
            return false;
        }
        i += 1;
    }
    assert(text@.subrange(from as int, len as int) =~= suffix@);
    true
}

/// `text` without `suffix` at its end, as often as it stands there.
pub fn strip_end(text: &str, suffix: &str) -> (stripped: String)
    ensures
        stripped@ == spec_strip_end(text@, suffix@),
{
    let width = suffix.unicode_len();
    let mut rest: &str = text;
    if width == 0 {
        return String::from_str(rest);
    }
    while has_suffix(rest, suffix)
        invariant
            width == suffix@.len(),
            width > 0,
            spec_strip_end(rest@, suffix@) == spec_strip_end(text@, suffix@),
        decreases rest@.len(),
    {
        let len = rest.unicode_len();
        rest = rest.substring_char(0, len - width);
    }
    String::from_str(rest)
}

/// The conversation that a question makes with the chain of replies it
/// stands in: `earlier` holds the chain from the message that the question
/// replies to back to the first one.
pub fn conversation(question: &str, earlier: &Vec<Said>, prompt: Option<&String>) -> (turns: Vec<
    Turn,
>)
    ensures
        turn_views(turns@) == spec_conversation(
            question@,
            said_views(earlier@),
            match prompt {
                Some(prompt) => Some(prompt@),
                None => None,
            },
        ),
{
    let ghost chain = said_views(earlier@);
    let ghost back = seq![TurnView { role: Role::User, text: question@ }] + chain.map_values(
        |said: SaidView| spec_turn(said),
    );
    let ghost forth = Seq::new(back.len(), |i: int| back[back.len() - 1 - i]);
    let ghost lead: Option<Seq<char>> = match prompt {
        Some(prompt) => Some(prompt@),
        None => None,
    };
    let ghost wanted = spec_conversation(question@, chain, lead);
    let total: usize = earlier.len();
    let mut turns: Vec<Turn> = Vec::new();
    let mut n: usize = 0;
    while n < total
        invariant
            n <= total,
            total == earlier@.len(),
            chain == said_views(earlier@),
            back.len() == total + 1,
            forall|i: int| 1 <= i <= total ==> back[i] == spec_turn(#[trigger] chain[i - 1]),
            back[0] == (TurnView { role: Role::User, text: question@ }),
            forth == Seq::new(back.len(), |i: int| back[back.len() - 1 - i]),
            wanted == spec_conversation(question@, chain, lead),
            lead == (match prompt {
                Some(prompt) => Some(prompt@),
                None => None,
            }),
            turn_views(turns@) == wanted.take(n as int),
        decreases total - n,
    {
        let said = &earlier[total - 1 - n];
        let role = if said.by_bot {
            Role::Model
        } else {
            Role::User
        };
        let stripped = strip_end(said.content.as_str(), END_INDICATOR);
        let text = if n == 0 {
            lead_in(prompt, stripped)
        } else {
            stripped
        };
        let ghost before = turns@;
        turns.push(Turn { role, text });
        proof {
            assert(chain[total - 1 - n] == said@);
            assert(forth[n as int] == back[total - n]);
            assert(turn_views(turns@) =~= turn_views(before).push(
                TurnView { role, text: text@ },
            ));
            assert(turn_views(turns@) =~= wanted.take(n as int + 1));
        }
        n += 1;
    }
    let asked = String::from_str(question);
    let text = if total == 0 {
        lead_in(prompt, asked)
    } else {
        asked
    };
    let ghost before = turns@;
    turns.push(Turn { role: Role::User, text });
    proof {
        assert(forth[total as int] == back[0]);
        assert(turn_views(turns@) =~= turn_views(before).push(
            TurnView { role: Role::User, text: text@ },
        ));
        assert(turn_views(turns@) =~= wanted);
    }
    turns
}

/// `text` with the prompt before it, where there is a prompt.
pub fn lead_in(prompt: Option<&String>, text: String) -> (led: String)
    ensures
        led@ == (match prompt {
            Some(prompt) => prompt@ + text@,
            None => text@,
        }),
{
    match prompt {
        Some(prompt) => {
            let mut led = prompt.clone();
            led.append(text.as_str());
            led
        },
        None => text,
    }
}

/// The prompt as it is kept: with a line break at its end.
pub fn prompt_line(prompt: &str) -> (line: String)
    ensures
        line@ == prompt@ + "\n"@,
{
    let mut line = String::from_str(prompt);
    line.append("\n");
    line
}

/// A reply while the model writes it.
#[derive(Clone, Debug, PartialEq, Eq)]
pub struct Draft {
    /// What the model wrote so far.
    pub written: String,
}

impl View for Draft {
    type V = Seq<char>;

    open spec fn view(&self) -> Seq<char> {
        self.written@
    }
}

/// The pieces joined in their order.
pub open spec fn spec_joined(pieces: Seq<String>) -> Seq<char>
    decreases pieces.len(),
{
    if pieces.len() == 0 {
        Seq::empty()
    } else {
        spec_joined(pieces.drop_last()) + pieces.last()@
    }
}

impl Draft {
    /// A reply of which nothing is written yet.
    pub fn new() -> (draft: Draft)
        ensures
            draft@ == Seq::<char>::empty(),
    {
        Draft { written: String::new() }
    }

    /// Adds the pieces that the model sent, in their order.
    pub fn extend(&mut self, pieces: &Vec<String>)
        ensures
            final(self)@ == old(self)@ + spec_joined(pieces@),
    {
        let mut i: usize = 0;
        assert(pieces@.take(0) =~= Seq::<String>::empty());
        while i < pieces.len()
            invariant
                i <= pieces.len(),
                self@ == old(self)@ + spec_joined(pieces@.take(i as int)),
            decreases pieces.len() - i,
        {
            proof {
                assert(pieces@.take(i as int + 1).drop_last() =~= pieces@.take(i as int));
                assert(pieces@.take(i as int + 1).last() == pieces@[i as int]);
            }
            self.written.append(pieces[i].as_str());
            i += 1;
        }
        assert(pieces@.take(pieces.len() as int) =~= pieces@);
    }

    /// The reply as it is shown while the model writes: what is written,
    /// and the mark that there is more to come.
    pub fn shown(&self) -> (text: String)
        ensures
            text@ == self@ + WORKING_INDICATOR@,
    {
        let mut text = self.written.clone();
        text.append(WORKING_INDICATOR);
        text
    }

    /// The reply as it is shown when the model is through: what is written,
    /// and the mark that it is complete.
    pub fn finished(&self) -> (text: String)
        ensures
            text@ == self@ + END_INDICATOR@,
    {
        let mut text = self.written.clone();
        text.append(END_INDICATOR);
        text
    }
}

} // verus!
