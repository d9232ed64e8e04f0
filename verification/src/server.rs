//! The accepting side of the relay: identities for new links and the rule for
//! taking a link in.

use std::collections::hash_map::DefaultHasher;
use std::hash::{Hash, Hasher};
use vstd::prelude::*;
use vstd::std_specs::hash::*;

use crate::tcp::{ConfigurationError, Setting, TcpStreamWrapper};

verus! {

/// The state a `DefaultHasher` is in after a text has been hashed into it, as
/// a function of the state before and of the text.
pub uninterp spec fn hashed_text(before: Seq<Seq<u8>>, text: Seq<char>) -> Seq<Seq<u8>>;

/// Calls `Hash::hash` of `String` on a `DefaultHasher`. The contract claims
/// only that the hasher's new state depends on nothing but its old state and
/// the characters of the text: equal texts leave equal hashers behind.
#[verifier::external_body]
fn hash_text(text: &String, hasher: &mut DefaultHasher)
    ensures
        final(hasher)@ == hashed_text(old(hasher)@, text@),
{
    text.hash(hasher);
}

/// The identity of the link whose remote endpoint reads `endpoint`.
pub open spec fn identity_of(endpoint: Seq<char>) -> u64 {
    DefaultHasher::spec_finish(hashed_text(Seq::empty(), endpoint))
}

/// Equal endpoint texts give equal identities.
pub proof fn lemma_identity_is_deterministic(first: Seq<char>, second: Seq<char>)
    requires
        first == second,
    ensures
        identity_of(first) == identity_of(second),
{
}

/// Derives a link's identity from the text of its remote endpoint
/// (`host:port`). The identity depends on the text alone.
pub fn generate_hash(c: String) -> (id: u64)
    ensures
        id == identity_of(c@),
{
    let mut hasher = DefaultHasher::new();
    hash_text(&c, &mut hasher);
    hasher.finish()
}

/// The accepting side of the relay: the address it listens on, and the rule
/// for taking in a link.
pub struct Server<'a> {
    address: &'a str,
}

impl<'a> Server<'a> {
    /// The address this server was made for.
    pub closed spec fn spec_address(&self) -> Seq<char> {
        self.address@
    }

    pub fn new(address: &'a str) -> (server: Self)
        ensures
            server.spec_address() == address@,
    {
        Self { address }
    }

    /// The address to listen on.
    pub fn address(&self) -> (address: &'a str)
        ensures
            address@ == self.spec_address(),
    {
        self.address
    }

    /// Decides what becomes of an accepted link. Its identity comes from the
    /// text of its remote endpoint. The link is handed to the relay only when
    /// the transport took both settings; `rejected` names the first setting it
    /// refused, and a link with a refused setting is discarded with the error.
    pub fn accept(remote_endpoint: String, rejected: Option<Setting>) -> (accepted: Result<
        TcpStreamWrapper,
        ConfigurationError,
    >)
        ensures
            match rejected {
                None => accepted == Ok::<TcpStreamWrapper, ConfigurationError>(
                    TcpStreamWrapper {
                        id: identity_of(remote_endpoint@),
                        nonblocking: true,
                        nodelay: true,
                    },
                ),
                Some(setting) => accepted == Err::<TcpStreamWrapper, ConfigurationError>(
                    ConfigurationError { rejected: setting },
                ),
            },
    {
        let mut stream = TcpStreamWrapper::new(generate_hash(remote_endpoint));
        match stream.configure(rejected) {
            Ok(_) => Ok(stream),
            Err(error) => Err(error),
        }
    }
}

} // verus!
