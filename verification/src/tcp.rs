//! One peer link as the relay sees it: an identity, two transport settings, and
//! the rules that turn what the transport reports into what the relay acts on.
//!
//! Nothing here touches a socket. The caller performs the transport operation
//! and passes its outcome in; the handle says what that outcome means.

use vstd::prelude::*;
use vstd::string::*;

verus! {

/// What a transport reports when an operation on a link does not succeed.
#[derive(Clone, Copy, Debug, PartialEq, Eq, Structural)]
pub enum TransportFault {
    /// Nothing could be transferred without waiting.
    WouldBlock,
    /// The peer reset the link.
    ConnectionReset,
    /// Any other failure.
    Other,
}

impl TransportFault {
    /// A benign fault means "no data this time" and nothing more.
    pub open spec fn is_benign(self) -> bool {
        self is WouldBlock || self is ConnectionReset
    }

    /// Whether this fault is benign.
    pub fn benign(self) -> (b: bool)
        ensures
            b == self.is_benign(),
    {
        match self {
            TransportFault::WouldBlock => true,
            TransportFault::ConnectionReset => true,
            TransportFault::Other => false,
        }
    }
}

/// The two settings a link needs before it may be handed to the relay.
#[derive(Clone, Copy, Debug, PartialEq, Eq, Structural)]
pub enum Setting {
    /// Operations return at once instead of waiting for the peer.
    NonBlocking,
    /// Writes are sent without waiting to be coalesced.
    NoDelay,
}

/// The transport refused a setting; the link must be discarded.
#[derive(Clone, Copy, Debug, PartialEq, Eq, Structural)]
pub struct ConfigurationError {
    pub rejected: Setting,
}

/// A read failed for a reason other than "no data this time".
#[derive(Clone, Copy, Debug, PartialEq, Eq, Structural)]
pub struct ReadError {
    pub cause: TransportFault,
}

/// The transport could not take a write.
#[derive(Clone, Copy, Debug, PartialEq, Eq, Structural)]
pub struct WriteError {
    pub cause: TransportFault,
}

/// `i` is the position of the first line feed in `text`.
pub open spec fn is_first_newline(text: Seq<char>, i: int) -> bool {
    &&& 0 <= i < text.len()
    &&& text[i] == '\n'
    &&& forall|j: int| 0 <= j < i ==> text[j] != '\n'
}

/// The first complete line of `text`, line feed included; empty when `text`
/// holds no line feed.
pub open spec fn first_line(text: Seq<char>) -> Seq<char> {
    if exists|i: int| is_first_newline(text, i) {
        text.take((choose|i: int| is_first_newline(text, i)) + 1)
    } else {
        Seq::empty()
    }
}

/// What a read yields for each outcome the transport can report: the first
/// complete line of the text received, nothing on a benign fault, and an error
/// on any other fault.
pub open spec fn line_read(outcome: Result<Seq<char>, TransportFault>) -> Result<
    Seq<char>,
    ReadError,
> {
    match outcome {
        Ok(text) => Ok(first_line(text)),
        Err(fault) => if fault.is_benign() {
            Ok(Seq::empty())
        } else {
            Err(ReadError { cause: fault })
        },
    }
}

/// What a write yields for each outcome the transport can report: any fault
/// is a write error.
pub open spec fn write_result(outcome: Result<(), TransportFault>) -> Result<(), WriteError> {
    match outcome {
        Ok(_) => Ok(()),
        Err(fault) => Err(WriteError { cause: fault }),
    }
}

/// A text has at most one first line feed.
pub proof fn lemma_first_newline_unique(text: Seq<char>, i: int, j: int)
    requires
        is_first_newline(text, i),
        is_first_newline(text, j),
    ensures
        i == j,
{
}

/// A text whose first line feed is at `i` has the line `text[0..=i]`.
pub proof fn lemma_first_line_at(text: Seq<char>, i: int)
    requires
        is_first_newline(text, i),
    ensures
        first_line(text) == text.take(i + 1),
{
    let k = choose|k: int| is_first_newline(text, k);
    lemma_first_newline_unique(text, i, k);
}

/// Cuts `text` after its first line feed. Text that holds no line feed is not
/// a complete line yet and gives the empty string.
pub fn complete_line(text: &str) -> (line: String)
    ensures
        line@ == first_line(text@),
{
    let length = text.unicode_len();
    let mut seen: usize = 0;
    for c in it: text.chars()
        invariant
            it.seq() == text@,
            seen == it.index(),
            length == text@.len(),
            forall|j: int| 0 <= j < seen ==> text@[j] != '\n',
    {
        if c == '\n' {
            proof {
                lemma_first_line_at(text@, seen as int);
            }
            return String::from_str(text.substring_char(0, seen + 1));
        }
        seen += 1;
    }
    String::new()
}

/// A peer link: its identity and whether the transport took the two settings.
#[derive(Clone, Copy, Debug, PartialEq, Eq, Structural)]
pub struct TcpStreamWrapper {
    pub id: u64,
    /// The transport took the request for non-blocking mode.
    pub nonblocking: bool,
    /// The transport took the request to send without delay.
    pub nodelay: bool,
}

impl TcpStreamWrapper {
    /// A link is configured once the transport took both settings.
    pub open spec fn is_configured(&self) -> bool {
        self.nonblocking && self.nodelay
    }

    /// What `configure` leaves behind when the transport reports `rejected`
    /// as the first setting it refused: a setting it took is on, the one it
    /// refused is off, and one it was not asked for is as before.
    pub open spec fn configured_with(&self, rejected: Option<Setting>, after: Self) -> bool {
        &&& after.id == self.id
        &&& after.nonblocking == (rejected != Some(Setting::NonBlocking))
        &&& after.nodelay == match rejected {
            None => true,
            Some(Setting::NonBlocking) => self.nodelay,
            Some(Setting::NoDelay) => false,
        }
    }

    /// A fresh handle for the link with identity `id`; no setting applied yet.
    pub fn new(id: u64) -> (handle: Self)
        ensures
            handle == (TcpStreamWrapper { id, nonblocking: false, nodelay: false }),
    {
        TcpStreamWrapper { id, nonblocking: false, nodelay: false }
    }

    /// Records how the transport answered the request for non-blocking mode
    /// followed by no-delay: `rejected` names the first setting it refused,
    /// after which the other one was not tried. Succeeds exactly when nothing
    /// was refused.
    pub fn configure(&mut self, rejected: Option<Setting>) -> (result: Result<
        (),
        ConfigurationError,
    >)
        ensures
            old(self).configured_with(rejected, *final(self)),
            final(self).is_configured() <==> result is Ok,
            match rejected {
                None => result == Ok::<(), ConfigurationError>(()),
                Some(setting) => result == Err::<(), ConfigurationError>(
                    ConfigurationError { rejected: setting },
                ),
            },
    {
        match rejected {
            Some(Setting::NonBlocking) => {
                self.nonblocking = false;
                Err(ConfigurationError { rejected: Setting::NonBlocking })
            },
            Some(Setting::NoDelay) => {
                self.nonblocking = true;
                self.nodelay = false;
                Err(ConfigurationError { rejected: Setting::NoDelay })
            },
            None => {
                self.nonblocking = true;
                self.nodelay = true;
                Ok(())
            },
        }
    }

    /// Whether the transport took both settings.
    pub fn configured(&self) -> (b: bool)
        ensures
            b == self.is_configured(),
    {
        self.nonblocking && self.nodelay
    }

    /// Turns the outcome of one non-blocking line read into the line the relay
    /// acts on. Text is cut after its first line feed; text without one, and any
    /// benign fault, count as "no data this time" and give the empty string.
    /// Every other fault is an error.
    pub fn read(&self, outcome: Result<&str, TransportFault>) -> (result: Result<String, ReadError>)
        ensures
            match line_read(
                match outcome {
                    Ok(text) => Ok(text@),
                    Err(fault) => Err(fault),
                },
            ) {
                Ok(line) => result is Ok && result->Ok_0@ == line,
                Err(error) => result == Err::<String, ReadError>(error),
            },
    {
        match outcome {
            Ok(text) => Ok(complete_line(text)),
            Err(fault) => if fault.benign() {
                Ok(String::new())
            } else {
                Err(ReadError { cause: fault })
            },
        }
    }

    /// Turns the outcome of writing a message in full and flushing it into the
    /// result the relay logs: any fault is a write error.
    pub fn write(&self, outcome: Result<(), TransportFault>) -> (result: Result<(), WriteError>)
        ensures
            result == write_result(outcome),
    {
        match outcome {
            Ok(_) => Ok(()),
            Err(fault) => Err(WriteError { cause: fault }),
        }
    }
}

} // verus!
