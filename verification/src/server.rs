//! The decisions of the server: what to do when a connection arrives, sends
//! bytes, closes or fails. The caller owns the sockets, performs what each
//! decision asks for, and reports what happened next.
//!
//! All connections speak to the collection named `default` of one database. A
//! request is run to its end before the next is looked at, so no two requests
//! ever touch the database at once.

use vstd::prelude::*;
use vstd::utf8::{decode_utf8, valid_utf8};
use crate::collection::{run_answer, run_root};
use crate::database::{lemma_update_root, InfuseDB, VERSION};
use crate::error::{Error, LookupError};
use crate::grammar::render;
use crate::text::{chars_of, extend_chars, string_of};
use crate::value::{has_key, key_position, lemma_key_position, Value};

verus! {

/// The name of the collection that requests are run against.
pub const DEFAULT_COLLECTION: &'static str = "default";

/// The token of the listening socket. No connection gets it.
pub const LISTENER: usize = 0;

/// What ends every line that the server sends.
pub open spec fn line_end() -> Seq<char> {
    seq!['\r', '\n']
}

/// The line that greets a new connection.
pub open spec fn greeting() -> Seq<char> {
    "InfuseDB "@ + VERSION@ + line_end()
}

/// What the database is after the request `line`: the root of the default
/// collection is what the command leaves, and everything else is untouched.
pub open spec fn entries_after(entries: Seq<(Seq<char>, Value)>, line: Seq<char>) -> Seq<
    (Seq<char>, Value),
> {
    if has_key(entries, DEFAULT_COLLECTION@) {
        let i = key_position(entries, DEFAULT_COLLECTION@);
        entries.update(i, (entries[i].0, run_root(entries[i].1, line)))
    } else {
        entries
    }
}

/// The answer to the request `line`: the answer of the command as it is written, or
/// the message of the error.
pub open spec fn response(entries: Seq<(Seq<char>, Value)>, line: Seq<char>) -> Seq<char> {
    if has_key(entries, DEFAULT_COLLECTION@) {
        match run_answer(entries[key_position(entries, DEFAULT_COLLECTION@)].1, line) {
            Ok(value) => render(value),
            Err(e) => e.text(),
        }
    } else {
        Error::Lookup(LookupError::CollectionNotFound).text()
    }
}

/// Runs one request against the default collection of `db`, to which the caller has
/// exclusive access for as long as the request runs, and gives the answer as text.
pub fn process_request(db: &mut InfuseDB, cmd: &str) -> (answer: String)
    requires
        old(db).well_formed(),
    ensures
        final(db).well_formed(),
        final(db).path_text() == old(db).path_text(),
        final(db)@ == entries_after(old(db)@, cmd@),
        answer@ == response(old(db)@, cmd@),
{
    proof {
        lemma_key_position(db@, DEFAULT_COLLECTION@);
    }
    let ghost i = key_position(db@, DEFAULT_COLLECTION@);
    let result = match db.get_collection(DEFAULT_COLLECTION) {
        Some(collection) => {
            let r = collection.run(cmd);
            proof {
                lemma_update_root(old(db)@, i, collection.root_content());
            }
            r
        },
        None => Err(Error::Lookup(LookupError::CollectionNotFound)),
    };
    match result {
        Ok(value) => value.to_string(),
        Err(e) => e.to_string(),
    }
}

/// What the caller reports.
#[derive(Debug)]
pub enum ServerEvent {
    /// The listening socket took a new connection.
    Accepted,
    /// The connection sent these bytes.
    Received { token: usize, data: Vec<u8> },
    /// The connection was closed by its other end.
    Closed { token: usize },
    /// The connection has nothing to read yet.
    WouldBlock { token: usize },
    /// Reading from the connection failed.
    Failed { token: usize },
}

/// What the caller is to do.
#[derive(Debug, PartialEq, Eq)]
pub enum ServerAction {
    /// Send the greeting to the new connection and watch it under the token.
    Greet { token: usize, banner: String },
    /// Give the new connection up: no token is left for it.
    Refuse,
    /// Send the answer to the connection.
    Reply { token: usize, answer: String },
    /// Stop watching the connection and close it.
    Drop { token: usize },
    /// Do nothing.
    Wait,
}

/// The content of an action.
pub enum Decision {
    Greet { token: usize, banner: Seq<char> },
    Refuse,
    Reply { token: usize, answer: Seq<char> },
    Drop { token: usize },
    Wait,
}

impl View for ServerAction {
    type V = Decision;

    open spec fn view(&self) -> Decision {
        match self {
            ServerAction::Greet { token, banner } => Decision::Greet {
                token: *token,
                banner: banner@,
            },
            ServerAction::Refuse => Decision::Refuse,
            ServerAction::Reply { token, answer } => Decision::Reply {
                token: *token,
                answer: answer@,
            },
            ServerAction::Drop { token } => Decision::Drop { token: *token },
            ServerAction::Wait => Decision::Wait,
        }
    }
}

/// Turns bytes into text with `String::from_utf8`, which succeeds exactly on valid
/// UTF-8 and then gives the characters that the bytes encode.
#[verifier::external_body]
pub(crate) fn text_of_bytes(data: Vec<u8>) -> (text: Option<String>)
    ensures
        text is Some <==> valid_utf8(data@),
        text matches Some(s) ==> s@ == decode_utf8(data@),
{
    String::from_utf8(data).ok()
}

/// The database and the connections of a server.
#[derive(Debug)]
pub struct ServerState {
    db: InfuseDB,
    next_token: usize,
    connections: Vec<usize>,
}

/// The tokens of `tokens` without `token`.
pub open spec fn without(tokens: Seq<usize>, token: usize) -> Seq<usize> {
    tokens.filter(|t: usize| t != token)
}

impl ServerState {
    /// The collections of the database.
    pub closed spec fn entries(&self) -> Seq<(Seq<char>, Value)> {
        self.db@
    }

    /// The token that the next connection gets.
    pub closed spec fn next_token(&self) -> usize {
        self.next_token
    }

    /// The tokens of the connections that are watched, oldest first.
    pub closed spec fn tokens(&self) -> Seq<usize> {
        self.connections@
    }

    /// Whether the database is well-formed, and the tokens of the connections are
    /// distinct, none of them that of the listener or one still to be given.
    pub closed spec fn well_formed(&self) -> bool {
        &&& self.db.well_formed()
        &&& self.next_token > LISTENER
        &&& self.connections@.no_duplicates()
        &&& forall|i: int|
            0 <= i < self.connections.len() ==> LISTENER < (#[trigger] self.connections[i])
                < self.next_token
    }

    /// The state of a server that starts on `db` with no connection.
    pub fn new(db: InfuseDB) -> (state: ServerState)
        requires
            db.well_formed(),
        ensures
            state.well_formed(),
            state.entries() == db@,
            state.next_token() == LISTENER + 1,
            state.tokens() == Seq::<usize>::empty(),
    {
        ServerState { db, next_token: 1, connections: Vec::new() }
    }

    /// The database.
    pub fn db(&self) -> (db: &InfuseDB)
        ensures
            db@ == self.entries(),
            self.well_formed() ==> db.well_formed(),
    {
        &self.db
    }

    /// The position of `token` among the watched connections, or their number if it is
    /// not among them.
    fn position(&self, token: usize) -> (i: usize)
        ensures
            i <= self.tokens().len(),
            i < self.tokens().len() ==> self.tokens()[i as int] == token,
            i == self.tokens().len() ==> !self.tokens().contains(token),
    {
        let mut i: usize = 0;
        while i < self.connections.len()
            invariant
                i <= self.connections.len(),
                forall|j: int| 0 <= j < i ==> self.connections[j] != token,
            decreases self.connections.len() - i,
        {
            if self.connections[i] == token {
                return i;
            }
            i += 1;
        }
        i
    }

    /// Forgets the connection `token`, if it is watched.
    fn forget(&mut self, token: usize) -> (watched: bool)
        requires
            old(self).well_formed(),
        ensures
            final(self).well_formed(),
            final(self).entries() == old(self).entries(),
            final(self).next_token() == old(self).next_token(),
            watched == old(self).tokens().contains(token),
            final(self).tokens() == without(old(self).tokens(), token),
    {
        let i = self.position(token);
        let ghost before = self.connections@;
        if i < self.connections.len() {
            self.connections.remove(i);
            proof {
                lemma_without(before, i as int);
            }
            true
        } else {
            proof {
                lemma_without_absent(before, token);
            }
            false
        }
    }

    /// Decides what to do about `event`.
    ///
    /// A new connection is greeted and watched under a token that no connection had
    /// before. Bytes from a watched connection are run as one request, if they are
    /// valid UTF-8, and answered; if they are not, the connection is dropped. A
    /// connection that closed or failed is dropped. Nothing is done for a connection
    /// that has nothing to read, or that is not watched.
    pub fn step(&mut self, event: ServerEvent) -> (action: ServerAction)
        requires
            old(self).well_formed(),
        ensures
            final(self).well_formed(),
            action@ == decision(
                old(self).entries(),
                old(self).next_token(),
                old(self).tokens(),
                event,
            ),
            final(self).entries() == entries_on(old(self).entries(), old(self).tokens(), event),
            final(self).tokens() == tokens_on(old(self).next_token(), old(self).tokens(), event),
            final(self).next_token() == next_token_on(old(self).next_token(), event),
            action@ matches Decision::Greet { token, .. } ==> token != LISTENER && !old(
                self,
            ).tokens().contains(token),
    {
        match event {
            ServerEvent::Accepted => {
                if self.next_token == usize::MAX {
                    ServerAction::Refuse
                } else {
                    let token = self.next_token;
                    self.next_token = token + 1;
                    self.connections.push(token);
                    let mut banner = chars_of("InfuseDB ");
                    let version = chars_of(VERSION);
                    extend_chars(&mut banner, &version);
                    banner.push('\r');
                    banner.push('\n');
                    assert(banner@ == greeting());
                    ServerAction::Greet { token, banner: string_of(&banner) }
                }
            },
            ServerEvent::Received { token, data } => {
                if self.position(token) == self.connections.len() {
                    proof {
                        lemma_without_absent(self.connections@, token);
                    }
                    ServerAction::Wait
                } else {
                    match text_of_bytes(data) {
                        Some(line) => {
                            let answer = process_request(&mut self.db, line.as_str());
                            let mut text = chars_of(answer.as_str());
                            text.push('\r');
                            text.push('\n');
                            assert(text@ == answer@ + line_end());
                            ServerAction::Reply { token, answer: string_of(&text) }
                        },
                        None => {
                            self.forget(token);
                            ServerAction::Drop { token }
                        },
                    }
                }
            },
            ServerEvent::Closed { token } => {
                if self.forget(token) {
                    ServerAction::Drop { token }
                } else {
                    ServerAction::Wait
                }
            },
            ServerEvent::Failed { token } => {
                if self.forget(token) {
                    ServerAction::Drop { token }
                } else {
                    ServerAction::Wait
                }
            },
            ServerEvent::WouldBlock { token } => ServerAction::Wait,
        }
    }
}

/// What is decided about `event` when the database holds `entries`, the next token
/// is `next` and the connections `tokens` are watched.
pub open spec fn decision(
    entries: Seq<(Seq<char>, Value)>,
    next: usize,
    tokens: Seq<usize>,
    event: ServerEvent,
) -> Decision {
    match event {
        ServerEvent::Accepted => if next == usize::MAX {
            Decision::Refuse
        } else {
            Decision::Greet { token: next, banner: greeting() }
        },
        ServerEvent::Received { token, data } => if !tokens.contains(token) {
            Decision::Wait
        } else if valid_utf8(data@) {
            Decision::Reply {
                token,
                answer: response(entries, decode_utf8(data@)) + line_end(),
            }
        } else {
            Decision::Drop { token }
        },
        ServerEvent::Closed { token } => if tokens.contains(token) {
            Decision::Drop { token }
        } else {
            Decision::Wait
        },
        ServerEvent::Failed { token } => if tokens.contains(token) {
            Decision::Drop { token }
        } else {
            Decision::Wait
        },
        ServerEvent::WouldBlock { token } => Decision::Wait,
    }
}

/// What the database holds after `event`: a request that is run is the only thing
/// that changes it.
pub open spec fn entries_on(
    entries: Seq<(Seq<char>, Value)>,
    tokens: Seq<usize>,
    event: ServerEvent,
) -> Seq<(Seq<char>, Value)> {
    match event {
        ServerEvent::Received { token, data } => if tokens.contains(token) && valid_utf8(data@) {
            entries_after(entries, decode_utf8(data@))
        } else {
            entries
        },
        _ => entries,
    }
}

/// Which connections are watched after `event`.
pub open spec fn tokens_on(next: usize, tokens: Seq<usize>, event: ServerEvent) -> Seq<usize> {
    match event {
        ServerEvent::Accepted => if next == usize::MAX {
            tokens
        } else {
            tokens.push(next)
        },
        ServerEvent::Received { token, data } => if valid_utf8(data@) {
            tokens
        } else {
            without(tokens, token)
        },
        ServerEvent::Closed { token } => without(tokens, token),
        ServerEvent::Failed { token } => without(tokens, token),
        ServerEvent::WouldBlock { token } => tokens,
    }
}

/// The token that the next connection gets after `event`.
pub open spec fn next_token_on(next: usize, event: ServerEvent) -> usize {
    match event {
        ServerEvent::Accepted => if next == usize::MAX {
            next
        } else {
            (next + 1) as usize
        },
        _ => next,
    }
}

/// Taking the element at `i` out of distinct tokens leaves the tokens without it.
pub proof fn lemma_without(tokens: Seq<usize>, i: int)
    requires
        tokens.no_duplicates(),
        0 <= i < tokens.len(),
    ensures
        tokens.remove(i) == without(tokens, tokens[i]),
        tokens.remove(i).no_duplicates(),
        forall|j: int|
            0 <= j < tokens.remove(i).len() ==> tokens.contains(#[trigger] tokens.remove(i)[j]),
    decreases tokens.len(),
{
    let token = tokens[i];
    reveal(Seq::filter);
    if i == tokens.len() - 1 {
        lemma_without_absent(tokens.drop_last(), token);
    } else {
        let shorter = tokens.drop_last();
        lemma_without(shorter, i);
    }
}

/// Tokens that do not hold `token` are the tokens without it.
pub proof fn lemma_without_absent(tokens: Seq<usize>, token: usize)
    requires
        !tokens.contains(token),
    ensures
        without(tokens, token) == tokens,
    decreases tokens.len(),
{
    reveal(Seq::filter);
    if tokens.len() > 0 {
        let shorter = tokens.drop_last();
        lemma_without_absent(shorter, token);
    }
}

} // verus!
