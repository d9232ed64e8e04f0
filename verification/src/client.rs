//! The client's side: the address it connects to, and what it shows of what
//! the relay sends.

use vstd::prelude::*;
use vstd::string::*;

use crate::tcp::ReadError;

verus! {

/// What the client shows for a line read from the relay: the line without its
/// last character, which is the line feed, behind the relay's tag. Nothing is
/// shown where nothing came or the read failed.
pub open spec fn shown(line: Result<Seq<char>, ReadError>) -> Option<Seq<char>> {
    match line {
        Ok(text) => if text.len() > 0 {
            Some("<Server> "@ + text.drop_last())
        } else {
            None
        },
        Err(_) => None,
    }
}

/// A client of the relay.
pub struct Client<'a> {
    address: &'a str,
}

impl<'a> Client<'a> {
    /// The address this client was made for.
    pub closed spec fn spec_address(&self) -> Seq<char> {
        self.address@
    }

    pub fn new(address: &'a str) -> (client: Self)
        ensures
            client.spec_address() == address@,
    {
        Self { address }
    }

    /// The address to connect to.
    pub fn address(&self) -> (address: &'a str)
        ensures
            address@ == self.spec_address(),
    {
        self.address
    }

    /// The text to print for what a read of the link to the relay returned, if
    /// there is anything to print.
    pub fn render(line: Result<String, ReadError>) -> (text: Option<String>)
        ensures
            match shown(
                match line {
                    Ok(received) => Ok(received@),
                    Err(error) => Err(error),
                },
            ) {
                Some(expected) => text is Some && text->Some_0@ == expected,
                None => text is None,
            },
    {
        match line {
            Ok(received) => {
                let length = received.as_str().unicode_len();
                if length > 0 {
                    let body = received.as_str().substring_char(0, length - 1);
                    Some(String::from_str("<Server> ").concat(body))
                } else {
                    None
                }
            },
            Err(_) => None,
        }
    }
}

} // verus!
