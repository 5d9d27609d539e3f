//! The commands typed in chat mode: which command a line names, what its
//! arguments are, and how a peer is found by id or nickname.
use vstd::prelude::*;

use base64::Engine;
use vstd::string::StringSliceAdditionalSpecFns;

use crate::peers::{copy_key, PeerKey};
use crate::types::Friend;

use super::mode::UIAction;
use super::text::{
    char_views, chars_of, join_words, join_words_from, parse_usize, parsed_usize, same_chars,
    split_words, string_from_chars, words,
};

verus! {

/// How many messages `history` shows when no count is given.
pub const DEFAULT_HISTORY_LIMIT: usize = 20;

/// The most messages `history` shows.
pub const MAX_HISTORY_LIMIT: usize = 1000;

/// The peer that the text `text` names as a peer id (base58 of its bytes), if
/// it names one.
pub uninterp spec fn peer_id_bytes(text: Seq<char>) -> Option<Seq<u8>>;

/// The bytes that `text` encodes in standard base64, if it encodes any.
pub uninterp spec fn base64_decoded(text: Seq<char>) -> Option<Seq<u8>>;

/// The character of the standard base64 alphabet for the six bits `v`:
/// `A`-`Z`, `a`-`z`, `0`-`9`, `+` and `/`.
pub open spec fn base64_symbol(v: int) -> char {
    if v < 26 {
        (65 + v) as char
    } else if v < 52 {
        (97 + v - 26) as char
    } else if v < 62 {
        (48 + v - 52) as char
    } else if v == 62 {
        '+'
    } else {
        '/'
    }
}

/// The standard base64 text of `bytes`: four characters for each three
/// bytes, and a last group of one or two bytes padded with `=`.
pub open spec fn base64_encoded(bytes: Seq<u8>) -> Seq<char>
    decreases bytes.len(),
{
    let b0 = bytes[0] as int;
    let b1 = bytes[1] as int;
    let b2 = bytes[2] as int;
    if bytes.len() == 0 {
        Seq::empty()
    } else if bytes.len() == 1 {
        seq![base64_symbol(b0 / 4), base64_symbol((b0 % 4) * 16), '=', '=']
    } else if bytes.len() == 2 {
        seq![base64_symbol(b0 / 4), base64_symbol((b0 % 4) * 16 + b1 / 16), base64_symbol((b1 % 16) * 4), '=']
    } else {
        seq![
            base64_symbol(b0 / 4),
            base64_symbol((b0 % 4) * 16 + b1 / 16),
            base64_symbol((b1 % 16) * 4 + b2 / 64),
            base64_symbol(b2 % 64),
        ] + base64_encoded(bytes.skip(3))
    }
}

/// The peer id written as `text`, as bytes.
///
/// Calls `libp2p::PeerId::from_str` (base58 decoding, then a multihash check)
/// and `PeerId::to_bytes`; the result depends on `text` alone and is named.
#[verifier::external_body]
pub(crate) fn parse_peer_id(text: &str) -> (r: Option<PeerKey>)
    ensures
        r is Some <==> peer_id_bytes(text@) is Some,
        r matches Some(k) ==> peer_id_bytes(text@) == Some(k@),
{
    match <libp2p::PeerId as std::str::FromStr>::from_str(text) {
        Ok(p) => Some(p.to_bytes()),
        Err(_) => None,
    }
}

/// The bytes that `text` encodes in standard base64.
///
/// Calls `base64::prelude::BASE64_STANDARD.decode`; the result depends on
/// `text` alone and is named.
#[verifier::external_body]
pub(crate) fn decode_base64(text: &str) -> (r: Option<Vec<u8>>)
    ensures
        r is Some <==> base64_decoded(text@) is Some,
        r matches Some(b) ==> base64_decoded(text@) == Some(b@),
{
    match base64::prelude::BASE64_STANDARD.decode(text) {
        Ok(b) => Some(b),
        Err(_) => None,
    }
}

/// The standard base64 text of `bytes`.
///
/// Calls `base64::prelude::BASE64_STANDARD.encode`: the standard alphabet
/// with padding (RFC 4648), as `base64_encoded` writes it out.
#[verifier::external_body]
pub(crate) fn encode_base64(bytes: &[u8]) -> (r: String)
    ensures
        r@ == base64_encoded(bytes@),
{
    base64::prelude::BASE64_STANDARD.encode(bytes)
}

/// The message count `history` shows: `raw` when it is a number from 1 to
/// 1000, twenty when there is none, and otherwise an error to show.
pub fn parse_limit(raw: Option<&str>) -> (r: Result<usize, String>)
    ensures
        raw is None ==> r == Ok::<usize, String>(DEFAULT_HISTORY_LIMIT),
        raw matches Some(v) ==> match parsed_usize(v@) {
            Some(c) => if 1 <= c <= MAX_HISTORY_LIMIT {
                r == Ok::<usize, String>(c)
            } else {
                r matches Err(e) && e@ == "❌ Message count must be between 1 and 1000"@
            },
            None => r matches Err(e) && e@ == "❌ Message count must be between 1 and 1000"@,
        },
{
    match raw {
        None => Ok(DEFAULT_HISTORY_LIMIT),
        Some(value) => {
            let chars = chars_of(value);
            match parse_usize(&chars) {
                Some(count) => {
                    if 1 <= count && count <= MAX_HISTORY_LIMIT {
                        Ok(count)
                    } else {
                        Err(String::from_str("❌ Message count must be between 1 and 1000"))
                    }
                },
                None => Err(String::from_str("❌ Message count must be between 1 and 1000")),
            }
        },
    }
}

/// A command of chat mode.
#[derive(Debug, Clone, Copy, PartialEq, Eq, Structural)]
pub enum ChatCommand {
    Send,
    Friend,
    Friends,
    History,
    Peers,
    Info,
    Check,
    Help,
    Exit,
    Unknown,
}

/// The command that the word `w` names.
pub open spec fn command_kind(w: Seq<char>) -> ChatCommand {
    if w == "send"@ {
        ChatCommand::Send
    } else if w == "friend"@ {
        ChatCommand::Friend
    } else if w == "friends"@ {
        ChatCommand::Friends
    } else if w == "history"@ {
        ChatCommand::History
    } else if w == "peers"@ {
        ChatCommand::Peers
    } else if w == "info"@ {
        ChatCommand::Info
    } else if w == "check"@ {
        ChatCommand::Check
    } else if w == "help"@ {
        ChatCommand::Help
    } else if w == "exit"@ {
        ChatCommand::Exit
    } else {
        ChatCommand::Unknown
    }
}

/// The command that the word `w` names.
pub fn command_named(w: &str) -> (c: ChatCommand)
    ensures
        c == command_kind(w@),
{
    let cs = chars_of(w);
    if same_chars(&cs, &chars_of("send")) {
        ChatCommand::Send
    } else if same_chars(&cs, &chars_of("friend")) {
        ChatCommand::Friend
    } else if same_chars(&cs, &chars_of("friends")) {
        ChatCommand::Friends
    } else if same_chars(&cs, &chars_of("history")) {
        ChatCommand::History
    } else if same_chars(&cs, &chars_of("peers")) {
        ChatCommand::Peers
    } else if same_chars(&cs, &chars_of("info")) {
        ChatCommand::Info
    } else if same_chars(&cs, &chars_of("check")) {
        ChatCommand::Check
    } else if same_chars(&cs, &chars_of("help")) {
        ChatCommand::Help
    } else if same_chars(&cs, &chars_of("exit")) {
        ChatCommand::Exit
    } else {
        ChatCommand::Unknown
    }
}

/// What is done with an action: leave, or run a command line.
#[derive(Debug)]
pub enum ActionPlan {
    /// Say goodbye and leave.
    Leave,
    /// Run this command line.
    Run(String),
}

/// The command line `send <to> <text>`.
pub open spec fn send_line(to: Seq<char>, text: Seq<char>) -> Seq<char> {
    "send "@ + to + seq![' '] + text
}

/// What is done with `action`: an `Exit`, or a command that is `exit` with
/// nothing but whitespace around it, leaves; a message to send becomes the
/// line `send <to> <text>`; another command is run as it is.
pub fn plan_ui_action(action: UIAction) -> (p: ActionPlan)
    ensures
        action is Exit ==> p is Leave,
        action is ExecuteCommand ==> if split_words(action->ExecuteCommand_0@) == seq!["exit"@] {
            p is Leave
        } else {
            p is Run && p->Run_0@ == action->ExecuteCommand_0@
        },
        action is SendMessage ==> p is Run && p->Run_0@ == send_line(
            action->SendMessage_0@,
            action->SendMessage_1@,
        ),
{
    match action {
        UIAction::Exit => ActionPlan::Leave,
        UIAction::ExecuteCommand(c) => {
            let cs = chars_of(c.as_str());
            let ws = words(&cs);
            let exit = chars_of("exit");
            if ws.len() == 1 && same_chars(&ws[0], &exit) {
                proof {
                    assert(char_views(ws@) =~= seq![exit@]);
                }
                ActionPlan::Leave
            } else {
                proof {
                    assert(char_views(ws@) == split_words(c@));
                    assert(char_views(ws@).len() == ws@.len());
                    if split_words(c@) == seq!["exit"@] {
                        assert(ws@.len() == 1);
                        assert(char_views(ws@)[0] == ws@[0]@);
                    }
                }
                ActionPlan::Run(c)
            }
        },
        UIAction::SendMessage(to, text) => {
            let mut line = chars_of("send ");
            let tc = chars_of(to.as_str());
            let xc = chars_of(text.as_str());
            let ghost start = line@;
            let mut i: usize = 0;
            while i < tc.len()
                invariant
                    i <= tc.len(),
                    line@ == start + tc@.take(i as int),
                decreases tc.len() - i,
            {
                line.push(tc[i]);
                assert(line@ =~= start + tc@.take(i + 1));
                i += 1;
            }
            line.push(' ');
            let ghost mid = line@;
            let mut j: usize = 0;
            while j < xc.len()
                invariant
                    j <= xc.len(),
                    line@ == mid + xc@.take(j as int),
                decreases xc.len() - j,
            {
                line.push(xc[j]);
                assert(line@ =~= mid + xc@.take(j + 1));
                j += 1;
            }
            assert(tc@.take(i as int) =~= tc@);
            assert(xc@.take(j as int) =~= xc@);
            assert(line@ =~= send_line(to@, text@));
            ActionPlan::Run(string_from_chars(&line))
        },
    }
}

/// The arguments of `send` in the command line `line`: the recipient and the
/// words after it joined by spaces, when there are both.
pub fn send_arguments(line: &str) -> (r: Option<(String, String)>)
    ensures
        ({
            let parts = split_words(line@);
            &&& r is Some <==> parts.len() >= 3
            &&& r matches Some((to, text)) ==> to@ == parts[1] && text@ == join_words(
                parts.subrange(2, parts.len() as int),
            )
        }),
{
    let cs = chars_of(line);
    let parts = words(&cs);
    if parts.len() < 3 {
        return None;
    }
    proof {
        assert(char_views(parts@)[1] == parts@[1]@);
    }
    let to = string_from_chars(&parts[1]);
    let text = string_from_chars(&join_words_from(&parts, 2));
    Some((to, text))
}

/// The arguments of `history` in the command line `line`: the peer, and the
/// count if one is given, when there are one or two arguments.
pub fn history_arguments(line: &str) -> (r: Option<(String, Option<String>)>)
    ensures
        ({
            let parts = split_words(line@);
            &&& r is Some <==> 2 <= parts.len() <= 3
            &&& r matches Some((peer, count)) ==> {
                &&& peer@ == parts[1]
                &&& count is Some <==> parts.len() == 3
                &&& count matches Some(c) ==> c@ == parts[2]
            }
        }),
{
    let cs = chars_of(line);
    let parts = words(&cs);
    if parts.len() < 2 || parts.len() > 3 {
        return None;
    }
    proof {
        assert(char_views(parts@)[1] == parts@[1]@);
    }
    let peer = string_from_chars(&parts[1]);
    if parts.len() == 3 {
        proof {
            assert(char_views(parts@)[2] == parts@[2]@);
        }
        Some((peer, Some(string_from_chars(&parts[2]))))
    } else {
        Some((peer, None))
    }
}

/// Why `friend` could not add a friend.
#[derive(Debug, Clone, Copy, PartialEq, Eq, Structural)]
pub enum FriendCommandError {
    /// Not two or three arguments.
    Usage,
    /// The first argument is not a peer id.
    InvalidPeerId,
    /// The second argument is not base64.
    InvalidKey,
}

/// The friend that the command line `line` (`friend <peer_id> <e2e_key>
/// [nickname]`) adds, or why it adds none.
pub fn parse_friend_command(line: &str) -> (r: Result<Friend, FriendCommandError>)
    ensures
        ({
            let parts = split_words(line@);
            &&& !(3 <= parts.len() <= 4) ==> r == Err::<Friend, FriendCommandError>(FriendCommandError::Usage)
            &&& 3 <= parts.len() <= 4 ==> match peer_id_bytes(parts[1]) {
                None => r == Err::<Friend, FriendCommandError>(FriendCommandError::InvalidPeerId),
                Some(peer) => match base64_decoded(parts[2]) {
                    None => r == Err::<Friend, FriendCommandError>(FriendCommandError::InvalidKey),
                    Some(key) => r matches Ok(f) && f.peer_id@ == peer && f.e2e_public_key@ == key && (
                    f.nickname is Some <==> parts.len() == 4) && (f.nickname matches Some(n) ==> n@
                        == parts[3]),
                },
            }
        }),
{
    let cs = chars_of(line);
    let parts = words(&cs);
    if parts.len() < 3 || parts.len() > 4 {
        return Err(FriendCommandError::Usage);
    }
    proof {
        assert(char_views(parts@)[1] == parts@[1]@);
        assert(char_views(parts@)[2] == parts@[2]@);
    }
    let peer_text = string_from_chars(&parts[1]);
    let peer_id = match parse_peer_id(peer_text.as_str()) {
        Some(p) => p,
        None => {
            return Err(FriendCommandError::InvalidPeerId);
        },
    };
    let key_text = string_from_chars(&parts[2]);
    let e2e_public_key = match decode_base64(key_text.as_str()) {
        Some(k) => k,
        None => {
            return Err(FriendCommandError::InvalidKey);
        },
    };
    let nickname = if parts.len() == 4 {
        proof {
            assert(char_views(parts@)[3] == parts@[3]@);
        }
        Some(string_from_chars(&parts[3]))
    } else {
        None
    };
    Ok(Friend { peer_id, e2e_public_key, nickname })
}

/// `f` goes by the nickname `name`.
pub open spec fn has_nickname(f: Friend, name: Seq<char>) -> bool {
    f.nickname matches Some(n) && n@ == name
}

/// Why a peer could not be found.
#[derive(Debug, Clone, Copy, PartialEq, Eq, Structural)]
pub enum ResolveError {
    /// The text is neither a peer id nor a friend's nickname.
    NotFound,
}

/// The peer that `destination` names, given what it reads as a peer id
/// (`parsed`): that peer, or else the first friend going by it as a
/// nickname.
pub fn resolve_parsed_peer(parsed: Option<PeerKey>, destination: &str, friends: &Vec<Friend>) -> (r: Result<PeerKey, ResolveError>)
    ensures
        parsed is Some ==> r is Ok && r->Ok_0@ == parsed->Some_0@,
        parsed is None ==> match r {
            Ok(k) => exists|i: int|
                0 <= i < friends@.len() && has_nickname(#[trigger] friends@[i], destination@) && k@
                    == friends@[i].peer_id@ && forall|j: int|
                    0 <= j < i ==> !has_nickname(#[trigger] friends@[j], destination@),
            Err(e) => e == ResolveError::NotFound && forall|i: int|
                0 <= i < friends@.len() ==> !has_nickname(#[trigger] friends@[i], destination@),
        },
{
    if parsed.is_some() {
        return Ok(parsed.unwrap());
    }
    {
        {
            let name = chars_of(destination);
            let mut i: usize = 0;
            while i < friends.len()
                invariant
                    parsed is None,
                    i <= friends.len(),
                    name@ == destination@,
                    forall|j: int| 0 <= j < i ==> !has_nickname(#[trigger] friends@[j], destination@),
                decreases friends.len() - i,
            {
                match &friends[i].nickname {
                    Some(n) => {
                        let nc = chars_of(n.as_str());
                        if same_chars(&nc, &name) {
                            return Ok(copy_key(&friends[i].peer_id));
                        }
                    },
                    None => {},
                }
                i += 1;
            }
            Err(ResolveError::NotFound)
        }
    }
}

/// The peer that `destination` names: the peer whose id it is, or else the
/// first friend going by it as a nickname.
pub fn resolve_peer_id(destination: &str, friends: &Vec<Friend>) -> (r: Result<PeerKey, ResolveError>)
    ensures
        peer_id_bytes(destination@) matches Some(p) ==> r matches Ok(k) && k@ == p,
        peer_id_bytes(destination@) is None ==> match r {
            Ok(k) => exists|i: int|
                0 <= i < friends@.len() && has_nickname(#[trigger] friends@[i], destination@) && k@
                    == friends@[i].peer_id@ && forall|j: int|
                    0 <= j < i ==> !has_nickname(#[trigger] friends@[j], destination@),
            Err(e) => e == ResolveError::NotFound && forall|i: int|
                0 <= i < friends@.len() ==> !has_nickname(#[trigger] friends@[i], destination@),
        },
{
    let parsed = parse_peer_id(destination);
    resolve_parsed_peer(parsed, destination, friends)
}

/// The text that `info` shows: the peer id text `peer` and the public key
/// `public_key` in standard base64.
pub fn identity_text(peer: &str, public_key: &[u8]) -> (r: String)
    ensures
        r@ == "Your Identity:\n  Peer ID: "@ + peer@ + "\n  E2E Public Key: "@ + base64_encoded(public_key@),
{
    let key = encode_base64(public_key);
    let mut s = String::from_str("Your Identity:\n  Peer ID: ");
    s.append(peer);
    s.append("\n  E2E Public Key: ");
    s.append(key.as_str());
    s
}

/// A short form of the peer id text `peer`: its first eight bytes and `...`
/// when it is longer.
pub fn short_peer(peer: &str) -> (r: String)
    requires
        peer.len() > 8 ==> vstd::utf8::is_char_boundary(peer.spec_bytes(), 8),
    ensures
        peer.len() <= 8 ==> r@ == peer@,
        peer.len() > 8 ==> r@ == vstd::utf8::decode_utf8(peer.spec_bytes().subrange(0, 8)) + "..."@,
{
    if peer.len() > 8 {
        let (head, _) = peer.split_at(8);
        proof {
            vstd::utf8::encode_utf8_decode_utf8(head@);
        }
        let mut s = head.to_owned();
        s.append("...");
        s
    } else {
        peer.to_owned()
    }
}

} // verus!
