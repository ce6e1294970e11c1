//! The accepting gate: an end that has no peer yet, learns of an initiator from
//! the relay and decides whether to accept it.
use vstd::prelude::*;

use crate::authorized::{
    adding_twice_adds_once, appended_line_lists, appended_text, contains, file_text, listed,
    load, table_of, Table, TableView,
};
use crate::crypto::ed25519_accepts;
use crate::proto::{
    decode_intro_from, decode_server_frame, decoded_intro, decoded_server_frame,
    only_signed_packets_open, peer_result, unpack_inner, unpacked_inner, IntroError, Peer,
    CMD_INTRO_FROM, HEADER_LEN, MIN_FRAME, SIGNATURE_LEN,
};
use crate::text::chars_of;

verus! {

/// Whether a target is of the form `host:port`: it has a colon.
pub open spec fn has_port(target: Seq<char>) -> bool {
    target.contains(':')
}

/// Checks the form of a target.
pub fn check_target(target: &str) -> (good: bool)
    ensures
        good == has_port(target@),
{
    let chars = chars_of(target);
    let mut i: usize = 0;
    while i < chars.len()
        invariant
            i <= chars@.len(),
            chars@ == target@,
            forall|j: int| 0 <= j < i ==> target@[j] != ':',
        decreases chars@.len() - i,
    {
        if chars[i] == ':' {
            return true;
        }
        i = i + 1;
    }
    false
}

/// Whether the setting that switches the table off has the value `1`.
pub fn no_pinning(setting: Option<&str>) -> (off: bool)
    ensures
        off == (setting matches Some(value) && value@ == seq!['1']),
{
    match setting {
        Some(value) => {
            let chars = chars_of(value);
            assert(chars@.len() == 1 && chars@[0] == '1' ==> chars@ =~= seq!['1']);
            chars.len() == 1 && chars[0] == '1'
        },
        None => false,
    }
}

/// What becomes of an initiator.
#[derive(Clone, Copy, Debug, PartialEq, Eq, Structural)]
pub enum Verdict {
    /// Accepted, because the table is switched off.
    Unpinned,
    /// Accepted and to be listed, because the table is empty.
    FirstUse,
    /// Accepted, because the table lists it.
    Listed,
    /// Rejected, because the table lists others.
    Unlisted,
    /// Rejected, because the table could not be read.
    Unreadable,
}

impl Verdict {
    /// Whether the initiator is accepted.
    pub open spec fn spec_accepts(self) -> bool {
        self is Unpinned || self is FirstUse || self is Listed
    }

    /// Whether the initiator is accepted.
    pub fn accepts(self) -> (accepted: bool)
        ensures
            accepted == self.spec_accepts(),
    {
        match self {
            Verdict::Unpinned | Verdict::FirstUse | Verdict::Listed => true,
            Verdict::Unlisted | Verdict::Unreadable => false,
        }
    }
}

/// The verdict on an initiator's key. `None` is a table that could not be read.
pub open spec fn verdict_on(
    x_pub: Seq<u8>,
    no_pinning: bool,
    table: Option<TableView>,
) -> Verdict {
    if no_pinning {
        Verdict::Unpinned
    } else {
        match table {
            None => Verdict::Unreadable,
            Some(table) => if table.is_empty() {
                Verdict::FirstUse
            } else if listed(table.entries, x_pub) {
                Verdict::Listed
            } else {
                Verdict::Unlisted
            },
        }
    }
}

/// Decides on an initiator: with the table switched off everyone is accepted;
/// an empty table accepts the first one; any other, also one of malformed lines
/// alone, accepts those it lists.
pub fn authorize_initiator(
    peer: &Peer,
    no_pinning: bool,
    table: Option<&Table>,
) -> (verdict: Verdict)
    ensures
        verdict == verdict_on(
            peer.x_pub@,
            no_pinning,
            match table {
                Some(table) => Some(table@),
                None => None,
            },
        ),
{
    if no_pinning {
        return Verdict::Unpinned;
    }
    match table {
        None => Verdict::Unreadable,
        Some(table) => {
            if table.is_empty() {
                Verdict::FirstUse
            } else if contains(&table.entries, &peer.x_pub) {
                Verdict::Listed
            } else {
                Verdict::Unlisted
            }
        },
    }
}

/// The verdict on an initiator's key by the table's file: `None` is a file that
/// could not be read, `Some(None)` one that is not there.
pub open spec fn file_verdict(
    x_pub: Seq<u8>,
    no_pinning: bool,
    file: Option<Option<&str>>,
) -> Verdict {
    verdict_on(
        x_pub,
        no_pinning,
        match file {
            Some(contents) => Some(table_of(file_text(contents))),
            None => None,
        },
    )
}

/// Decides on an initiator by the table's file: gives the initiator back if it
/// is accepted, and on first use, and only then, what to append to the file.
pub fn accept_initiator(peer: Peer, no_pinning: bool, file: Option<Option<&str>>) -> (outcome: (
    Option<Peer>,
    Option<String>,
))
    ensures
        ({
            let verdict = file_verdict(peer.x_pub@, no_pinning, file);
            &&& outcome.0 == (if verdict.spec_accepts() {
                Some(peer)
            } else {
                None
            })
            &&& outcome.1 is Some <==> verdict == Verdict::FirstUse
            &&& outcome.1 matches Some(line) ==> file matches Some(contents) && line@
                == appended_text(file_text(contents), peer.x_pub@, peer.nick@)
        }),
{
    let verdict = match file {
        Some(contents) => authorize_initiator(&peer, no_pinning, Some(&load(contents))),
        None => authorize_initiator(&peer, no_pinning, None),
    };
    let line = match (verdict, file) {
        (Verdict::FirstUse, Some(contents)) => {
            crate::authorized::add(contents, &peer.x_pub, peer.nick.as_str())
        },
        (_, _) => None,
    };
    if verdict.accepts() {
        (Some(peer), line)
    } else {
        (None, line)
    }
}

/// Unless it is switched off, a table that is not empty accepts those it lists
/// and nobody else.
pub proof fn only_listed_are_accepted(x_pub: Seq<u8>, table: TableView)
    requires
        !table.is_empty(),
    ensures
        verdict_on(x_pub, false, Some(table)).spec_accepts() == listed(table.entries, x_pub),
{
}

/// Trust on first use: when a file is an empty table, the first initiator is
/// accepted; once what `add` gives is in the file, it is accepted again, and
/// everyone else is rejected.
pub proof fn first_use_pins(text: Seq<char>, x_pub: Seq<u8>, nick: Seq<char>, other: Seq<u8>)
    requires
        table_of(text).is_empty(),
        x_pub.len() == 32,
        other != x_pub,
    ensures
        ({
            let after = table_of(text + appended_text(text, x_pub, nick));
            &&& verdict_on(x_pub, false, Some(table_of(text))) == Verdict::FirstUse
            &&& verdict_on(x_pub, false, Some(after)) == Verdict::Listed
            &&& verdict_on(other, false, Some(after)) == Verdict::Unlisted
        }),
{
    appended_line_lists(text, x_pub, nick);
    adding_twice_adds_once(text, x_pub, nick);
}

/// The body of an introduction, in a frame of the relay itself.
pub open spec fn introduction_body(inner: Option<Seq<u8>>) -> Option<Seq<u8>> {
    match inner {
        Some(inner) => match unpacked_inner(inner) {
            Some((cmd, body)) => if cmd == CMD_INTRO_FROM {
                Some(body)
            } else {
                None
            },
            None => None,
        },
        None => None,
    }
}

/// The initiator that a message of the relay introduces, or why it does not.
pub fn introduced(inner: &[u8]) -> (initiator: Option<Result<Peer, IntroError>>)
    ensures
        match initiator {
            Some(peer) => introduction_body(Some(inner@)) matches Some(body) && peer_result(peer)
                == decoded_intro(body),
            None => introduction_body(Some(inner@)) is None,
        },
{
    match unpack_inner(inner) {
        Some((cmd, body)) => {
            if cmd == CMD_INTRO_FROM {
                Some(decode_intro_from(body))
            } else {
                None
            }
        },
        None => None,
    }
}

/// The initiator that a frame introduces; frames that the relay did not send,
/// and its other messages, introduce nobody.
pub fn introduction(
    frame: &[u8],
    k_s2c: &[u8; 32],
    my_x_priv: &[u8; 32],
    server_x_pub: &[u8; 32],
    server_ed: &[u8; 32],
) -> (initiator: Option<Result<Peer, IntroError>>)
    ensures
        ({
            let inner = decoded_server_frame(
                frame@,
                k_s2c@,
                my_x_priv@,
                server_x_pub@,
                server_ed@,
            );
            match initiator {
                Some(peer) => introduction_body(inner) matches Some(body) && peer_result(peer)
                    == decoded_intro(body),
                None => introduction_body(inner) is None,
            }
        }),
{
    match decode_server_frame(frame, k_s2c, my_x_priv, server_x_pub, server_ed) {
        Some(inner) => introduced(&inner),
        None => None,
    }
}

/// Only what the relay signed introduces anyone.
pub proof fn only_the_relay_introduces(
    frame: Seq<u8>,
    k_s2c: Seq<u8>,
    my_x_priv: Seq<u8>,
    server_x_pub: Seq<u8>,
    server_ed: Seq<u8>,
)
    ensures
        introduction_body(
            decoded_server_frame(frame, k_s2c, my_x_priv, server_x_pub, server_ed),
        ) is Some ==> ed25519_accepts(
            server_ed,
            frame.subrange(HEADER_LEN as int, frame.len() - SIGNATURE_LEN),
            frame.skip(frame.len() - SIGNATURE_LEN),
        ),
{
    let packet = frame.skip(HEADER_LEN as int);
    only_signed_packets_open(packet, my_x_priv, server_x_pub, server_ed);
    if frame.len() >= MIN_FRAME {
        assert(packet.take(packet.len() - SIGNATURE_LEN) =~= frame.subrange(
            HEADER_LEN as int,
            frame.len() - SIGNATURE_LEN,
        ));
        assert(packet.skip(packet.len() - SIGNATURE_LEN) =~= frame.skip(
            frame.len() - SIGNATURE_LEN,
        ));
    }
}

/// A target has a port exactly when a colon stands in it, wherever.
pub proof fn a_colon_makes_a_port(host: Seq<char>, port: Seq<char>, bare: Seq<char>)
    requires
        forall|i: int| 0 <= i < bare.len() ==> #[trigger] bare[i] != ':',
    ensures
        has_port(host.push(':') + port),
        !has_port(bare),
{
    let target = host.push(':') + port;
    assert(target[host.len() as int] == ':');
}

/// Three verdicts accept and two do not.
pub proof fn verdicts_accept_or_reject()
    ensures
        Verdict::Unpinned.spec_accepts(),
        Verdict::FirstUse.spec_accepts(),
        Verdict::Listed.spec_accepts(),
        !Verdict::Unlisted.spec_accepts(),
        !Verdict::Unreadable.spec_accepts(),
{
}

/// The verdict on every key: with the table switched off it is accepted; without a
/// table that could be read it is rejected; it is the first where the table has
/// neither an entry nor a malformed line; else it is accepted exactly when an entry
/// has it.
pub proof fn verdicts_go_by_setting_and_table(x_pub: Seq<u8>, table: TableView)
    ensures
        verdict_on(x_pub, true, Some(table)) == Verdict::Unpinned,
        verdict_on(x_pub, true, None) == Verdict::Unpinned,
        verdict_on(x_pub, false, None) == Verdict::Unreadable,
        verdict_on(x_pub, false, Some(table)) == Verdict::FirstUse <==> table.entries.len() == 0
            && table.malformed.len() == 0,
        verdict_on(x_pub, false, Some(table)) == Verdict::Listed <==> exists|i: int|
            0 <= i < table.entries.len() && #[trigger] table.entries[i].x_pub == x_pub,
        verdict_on(x_pub, false, Some(table)) == Verdict::Unlisted <==> (table.entries.len() > 0
            || table.malformed.len() > 0) && forall|i: int|
            0 <= i < table.entries.len() ==> #[trigger] table.entries[i].x_pub != x_pub,
{
}

/// The verdict by a file is that by its table; a file that is not there is an empty
/// text, and one that could not be read is no table.
pub proof fn file_verdicts_go_by_the_table(x_pub: Seq<u8>, no_pinning: bool, contents: &str)
    ensures
        file_verdict(x_pub, no_pinning, Some(Some(contents))) == verdict_on(
            x_pub,
            no_pinning,
            Some(table_of(contents@)),
        ),
        file_verdict(x_pub, no_pinning, Some(None)) == verdict_on(
            x_pub,
            no_pinning,
            Some(table_of(Seq::empty())),
        ),
        file_verdict(x_pub, no_pinning, None) == verdict_on(x_pub, no_pinning, None),
{
}

/// A message of the relay introduces someone exactly when it has a command and that
/// is the one for introductions; what follows it is the introduction.
pub proof fn introductions_are_told_by_their_command(inner: Seq<u8>)
    ensures
        introduction_body(Some(inner)) is Some <==> inner.len() >= 3 && inner[2] == 0x47,
        introduction_body(Some(inner)) matches Some(body) ==> body == inner.skip(3),
        introduction_body(None) is None,
{
}

} // verus!
