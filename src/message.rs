use vstd::prelude::*;
use crate::cycle::AccuracyBand;

verus! {

/// The kind of an advisory message.
#[derive(Debug, Clone, Copy, PartialEq, Eq)]
pub enum MessageKind {
    Success,
    Error,
    Flow,
    Quiz,
    System,
}

/// The display priority of a kind; higher wins.
pub open spec fn kind_priority(k: MessageKind) -> u32 {
    match k {
        MessageKind::Success => 3,
        MessageKind::Error => 3,
        MessageKind::Flow => 2,
        MessageKind::System => 2,
        MessageKind::Quiz => 1,
    }
}

impl MessageKind {
    /// The display priority of the kind; higher wins.
    pub fn priority(&self) -> (r: u32)
        ensures
            r == kind_priority(*self),
    {
        match self {
            MessageKind::Success => 3,
            MessageKind::Error => 3,
            MessageKind::Flow => 2,
            MessageKind::System => 2,
            MessageKind::Quiz => 1,
        }
    }
}

/// The kind of a message.
pub open spec fn message_kind(m: L2DMessage) -> MessageKind {
    match m {
        L2DMessage::Success(_) => MessageKind::Success,
        L2DMessage::Error(_) => MessageKind::Error,
        L2DMessage::Flow(_) => MessageKind::Flow,
        L2DMessage::Quiz(_) => MessageKind::Quiz,
        L2DMessage::System(_) => MessageKind::System,
    }
}

/// An advisory text for the presentation layer, tagged with its kind.
#[derive(Debug, Clone, PartialEq)]
pub enum L2DMessage {
    /// A correct answer.
    Success(String),
    /// A wrong answer.
    Error(String),
    /// A word moved between buckets.
    Flow(String),
    /// A quiz prompt.
    Quiz(String),
    /// Anything else.
    System(String),
}

impl L2DMessage {
    /// The kind of the message.
    pub fn kind(&self) -> (r: MessageKind)
        ensures
            r == message_kind(*self),
    {
        match self {
            L2DMessage::Success(_) => MessageKind::Success,
            L2DMessage::Error(_) => MessageKind::Error,
            L2DMessage::Flow(_) => MessageKind::Flow,
            L2DMessage::Quiz(_) => MessageKind::Quiz,
            L2DMessage::System(_) => MessageKind::System,
        }
    }

    /// The display priority of the message's kind; higher wins.
    pub fn priority(&self) -> (r: u32)
        ensures
            (self is Success || self is Error) ==> r == 3,
            (self is Flow || self is System) ==> r == 2,
            self is Quiz ==> r == 1,
            r == kind_priority(message_kind(*self)),
    {
        match self {
            L2DMessage::Success(_) => 3,
            L2DMessage::Error(_) => 3,
            L2DMessage::Flow(_) => 2,
            L2DMessage::System(_) => 2,
            L2DMessage::Quiz(_) => 1,
        }
    }
}

} // verus!

verus! {

/// What an action asks the presentation layer to show or do. The words these
/// refer to are the current word before the action (a mark or an answer).
#[derive(Debug, Clone, Copy, PartialEq, Eq)]
pub enum Notice {
    /// Nothing is classified yet: mark words to start reviewing.
    StartByMarking,
    /// No new word after the current one.
    LastNewWord,
    /// No new word before the current one.
    FirstNewWord,
    /// The current word was taken out of the mastered (or difficult) bucket.
    Unmarked { mastered: bool },
    /// The current word moved into the mastered (or difficult) bucket from the other one.
    Moved { to_mastered: bool },
    /// The current word was put into the mastered (or difficult) bucket.
    Marked { mastered: bool },
    /// The pools were rebuilt with this many due and not-due words.
    PoolUpdated { due: usize, cached: usize },
    /// The pools were rebuilt and no word is classified.
    NothingToReview,
    /// A correct answer, the streak now and the next interval.
    Correct { streak: u32, interval: u32 },
    /// A correct answer that moved a difficult word to the mastered bucket.
    Promoted { interval: u32 },
    /// A wrong answer.
    Incorrect,
    /// A wrong answer that moved a mastered word to the difficult bucket.
    Demoted,
    /// A cycle ended: the accuracy band that decided the new target, the
    /// first-answer results and the new target.
    Settled { band: AccuracyBand, reviewed: usize, correct: usize, target: usize },
    /// Show the expression for a correct answer.
    ShowCorrect,
    /// Show the expression for a wrong answer.
    ShowError,
    /// Pronounce the current word.
    SpeakWord,
    /// Show the message that the action carries, which is of this kind.
    Relay { kind: MessageKind },
}

/// The kind of a notice: answers are successes or errors, moves between
/// buckets are flows, a relayed message keeps its kind, the rest is system
/// information.
pub open spec fn notice_kind(n: Notice) -> MessageKind {
    match n {
        Notice::Correct { .. } => MessageKind::Success,
        Notice::ShowCorrect => MessageKind::Success,
        Notice::Incorrect => MessageKind::Error,
        Notice::ShowError => MessageKind::Error,
        Notice::Moved { .. } => MessageKind::Flow,
        Notice::Promoted { .. } => MessageKind::Flow,
        Notice::Demoted => MessageKind::Flow,
        Notice::Relay { kind } => kind,
        _ => MessageKind::System,
    }
}

impl Notice {
    /// The kind of the notice.
    pub fn kind(&self) -> (r: MessageKind)
        ensures
            r == notice_kind(*self),
    {
        match self {
            Notice::Correct { .. } => MessageKind::Success,
            Notice::ShowCorrect => MessageKind::Success,
            Notice::Incorrect => MessageKind::Error,
            Notice::ShowError => MessageKind::Error,
            Notice::Moved { .. } => MessageKind::Flow,
            Notice::Promoted { .. } => MessageKind::Flow,
            Notice::Demoted => MessageKind::Flow,
            Notice::Relay { kind } => *kind,
            _ => MessageKind::System,
        }
    }

    /// The display priority of the notice's kind; higher wins.
    pub fn priority(&self) -> (r: u32)
        ensures
            r == kind_priority(notice_kind(*self)),
    {
        self.kind().priority()
    }
}

} // verus!
