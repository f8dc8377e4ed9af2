//! The texts a session puts on the wire: the handshake prompt asking for a
//! display name, the join and leave notifications, and the `name: payload`
//! shape given to every relayed chat message. All of them are byte payloads;
//! a frame around them is the codec's business.
use vstd::prelude::*;

verus! {

/// Bytes of the handshake prompt `"What is your Username"`.
pub open spec fn prompt_text() -> Seq<u8> {
    seq![
        87u8,
        104u8,
        97u8,
        116u8,
        32u8,
        105u8,
        115u8,
        32u8,
        121u8,
        111u8,
        117u8,
        114u8,
        32u8,
        85u8,
        115u8,
        101u8,
        114u8,
        110u8,
        97u8,
        109u8,
        101u8,
    ]
}

/// Bytes of `" has joined the chat"`.
pub open spec fn joined_suffix() -> Seq<u8> {
    seq![
        32u8,
        104u8,
        97u8,
        115u8,
        32u8,
        106u8,
        111u8,
        105u8,
        110u8,
        101u8,
        100u8,
        32u8,
        116u8,
        104u8,
        101u8,
        32u8,
        99u8,
        104u8,
        97u8,
        116u8,
    ]
}

/// Bytes of `" has left the chat"`.
pub open spec fn left_suffix() -> Seq<u8> {
    seq![
        32u8,
        104u8,
        97u8,
        115u8,
        32u8,
        108u8,
        101u8,
        102u8,
        116u8,
        32u8,
        116u8,
        104u8,
        101u8,
        32u8,
        99u8,
        104u8,
        97u8,
        116u8,
    ]
}

/// The join notification `"<name> has joined the chat"`.
pub open spec fn join_text(name: Seq<u8>) -> Seq<u8> {
    name + joined_suffix()
}

/// The leave notification `"<name> has left the chat"`.
pub open spec fn leave_text(name: Seq<u8>) -> Seq<u8> {
    name + left_suffix()
}

/// A relayed chat line `"<name>: <payload>"`; the payload may be empty, in
/// which case the line ends right after the separator.
pub open spec fn chat_text(name: Seq<u8>, payload: Seq<u8>) -> Seq<u8> {
    name + seq![58u8, 32u8] + payload
}

/// The display name a handshake reply yields: the reply bytes as they came,
/// or the empty name when the peer went away before answering. The lenient
/// empty-name fallback is deliberate.
pub open spec fn name_of_reply(reply: Option<Seq<u8>>) -> Seq<u8> {
    match reply {
        Some(b) => b,
        None => Seq::empty(),
    }
}

/// The byte-sequence view of an optional reply payload.
pub open spec fn reply_view(reply: Option<Vec<u8>>) -> Option<Seq<u8>> {
    match reply {
        Some(b) => Some(b@),
        None => None,
    }
}

/// Builds the handshake prompt payload.
pub fn prompt_message() -> (m: Vec<u8>)
    ensures
        m@ == prompt_text(),
{
    let mut m: Vec<u8> = Vec::new();
    m.push(87u8);
    m.push(104u8);
    m.push(97u8);
    m.push(116u8);
    m.push(32u8);
    m.push(105u8);
    m.push(115u8);
    m.push(32u8);
    m.push(121u8);
    m.push(111u8);
    m.push(117u8);
    m.push(114u8);
    m.push(32u8);
    m.push(85u8);
    m.push(115u8);
    m.push(101u8);
    m.push(114u8);
    m.push(110u8);
    m.push(97u8);
    m.push(109u8);
    m.push(101u8);
    proof {
        assert(m@ =~= prompt_text());
    }
    m
}

/// Builds the join notification for `name`.
pub fn join_message(name: &Vec<u8>) -> (m: Vec<u8>)
    ensures
        m@ == join_text(name@),
{
    let mut m: Vec<u8> = Vec::new();
    m.extend_from_slice(name.as_slice());
    m.push(32u8);
    m.push(104u8);
    m.push(97u8);
    m.push(115u8);
    m.push(32u8);
    m.push(106u8);
    m.push(111u8);
    m.push(105u8);
    m.push(110u8);
    m.push(101u8);
    m.push(100u8);
    m.push(32u8);
    m.push(116u8);
    m.push(104u8);
    m.push(101u8);
    m.push(32u8);
    m.push(99u8);
    m.push(104u8);
    m.push(97u8);
    m.push(116u8);
    proof {
        assert(m@ =~= join_text(name@));
    }
    m
}

/// Builds the leave notification for `name`.
pub fn leave_message(name: &Vec<u8>) -> (m: Vec<u8>)
    ensures
        m@ == leave_text(name@),
{
    let mut m: Vec<u8> = Vec::new();
    m.extend_from_slice(name.as_slice());
    m.push(32u8);
    m.push(104u8);
    m.push(97u8);
    m.push(115u8);
    m.push(32u8);
    m.push(108u8);
    m.push(101u8);
    m.push(102u8);
    m.push(116u8);
    m.push(32u8);
    m.push(116u8);
    m.push(104u8);
    m.push(101u8);
    m.push(32u8);
    m.push(99u8);
    m.push(104u8);
    m.push(97u8);
    m.push(116u8);
    proof {
        assert(m@ =~= leave_text(name@));
    }
    m
}

/// Builds the relayed chat line `"<name>: <payload>"`.
pub fn chat_message(name: &Vec<u8>, payload: &Vec<u8>) -> (m: Vec<u8>)
    ensures
        m@ == chat_text(name@, payload@),
{
    let mut m: Vec<u8> = Vec::new();
    m.extend_from_slice(name.as_slice());
    m.push(58u8);
    m.push(32u8);
    m.extend_from_slice(payload.as_slice());
    proof {
        assert(m@ =~= chat_text(name@, payload@));
    }
    m
}

/// Turns a handshake reply into the session's display name.
pub fn name_from_reply(reply: Option<Vec<u8>>) -> (name: Vec<u8>)
    ensures
        name@ == name_of_reply(reply_view(reply)),
{
    match reply {
        Some(b) => b,
        None => Vec::new(),
    }
}

} // verus!
