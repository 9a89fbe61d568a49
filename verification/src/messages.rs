//! Stored display messages: creating one with a fresh identifier and
//! timestamp, rebuilding one from the fields a record store hands back,
//! and ordering a batch newest-first.

use vstd::prelude::*;

verus! {

broadcast use vstd::seq_lib::group_to_multiset_ensures;

/// A message to be shown on the display, with its creation time in
/// milliseconds since the Unix epoch.
#[derive(Debug, Clone)]
pub struct Message {
    pub id: String,
    pub content: String,
    pub created_at: i64,
}

/// Why a stored record could not be read back as a message.
#[derive(Debug, Clone, PartialEq, Eq, Structural)]
pub enum MessageError {
    MissingId,
    MissingContent,
    MissingCreatedAt,
    InvalidCreatedAt,
}

/// The creation time that an RFC 3339 date-and-time string denotes, in
/// milliseconds since the Unix epoch, or `None` for a string that is no
/// such date. What it is on a given string only chrono's parser says.
pub uninterp spec fn rfc3339_millis(s: Seq<char>) -> Option<i64>;

/// Relies on chrono's `DateTime::parse_from_rfc3339` and
/// `DateTime::timestamp_millis`: both are functions of the input string
/// alone, so their composition deserves a name.
#[verifier::external_body]
fn parse_rfc3339_millis(s: &str) -> (r: Option<i64>)
    ensures
        r == rfc3339_millis(s@),
{
    match chrono::DateTime::<chrono::FixedOffset>::parse_from_rfc3339(s) {
        Ok(d) => Some(d.timestamp_millis()),
        Err(_) => None,
    }
}

/// Relies on uuid's `Uuid::new_v4` and its `Display` form: a random
/// identifier, always rendered as 36 hyphenated lowercase hex characters.
#[verifier::external_body]
fn fresh_uuid() -> (r: String)
    ensures
        r@.len() == 36,
{
    uuid::Uuid::new_v4().to_string()
}

/// Relies on chrono's `Utc::now`: the clock decides the value, so nothing
/// is promised of it.
#[verifier::external_body]
fn now_millis() -> i64 {
    chrono::Utc::now().timestamp_millis()
}

impl Message {
    /// A new message around `content`, under a fresh random identifier,
    /// stamped with the current time.
    pub fn new(content: String) -> (m: Message)
        ensures
            m.content == content,
            m.id@.len() == 36,
    {
        Message { id: fresh_uuid(), content, created_at: now_millis() }
    }
}

/// Rebuilds a message from the raw fields of a stored record: each field
/// must be present, and the stored timestamp must be a valid RFC 3339
/// date; the first failure, in that order, names the error.
pub fn parse_message(id: Option<String>, content: Option<String>, created_at: Option<String>) -> (r:
    Result<Message, MessageError>)
    ensures
        r is Ok <==> (id is Some && content is Some && created_at is Some && rfc3339_millis(
            created_at->0@,
        ) is Some),
        r matches Ok(m) ==> m.id == id->0 && m.content == content->0 && Some(m.created_at)
            == rfc3339_millis(created_at->0@),
        r == Err::<Message, MessageError>(MessageError::MissingId) <==> id is None,
        r == Err::<Message, MessageError>(MessageError::MissingContent) <==> (id is Some
            && content is None),
        r == Err::<Message, MessageError>(MessageError::MissingCreatedAt) <==> (id is Some
            && content is Some && created_at is None),
        r == Err::<Message, MessageError>(MessageError::InvalidCreatedAt) <==> (id is Some
            && content is Some && created_at is Some && rfc3339_millis(created_at->0@) is None),
{
    let id = match id {
        Some(v) => v,
        None => {
            return Err(MessageError::MissingId);
        },
    };
    let content = match content {
        Some(v) => v,
        None => {
            return Err(MessageError::MissingContent);
        },
    };
    let created_at = match created_at {
        Some(v) => v,
        None => {
            return Err(MessageError::MissingCreatedAt);
        },
    };
    match parse_rfc3339_millis(created_at.as_str()) {
        Some(ms) => Ok(Message { id, content, created_at: ms }),
        None => Err(MessageError::InvalidCreatedAt),
    }
}

/// Newest first: creation times never increase along the sequence.
pub open spec fn sorted_newest_first(s: Seq<Message>) -> bool {
    forall|i: int, j: int| 0 <= i < j < s.len() ==> s[i].created_at >= s[j].created_at
}

proof fn lemma_insert_to_multiset<T>(s: Seq<T>, p: int, x: T)
    requires
        0 <= p <= s.len(),
    ensures
        s.insert(p, x).to_multiset() == s.to_multiset().insert(x),
{
    let t = s.insert(p, x);
    assert(t.remove(p) =~= s);
    assert(t[p] == x);
    assert(t.to_multiset().count(x) > 0);
    assert(s.to_multiset() == t.to_multiset().remove(x));
    assert(t.to_multiset() =~= s.to_multiset().insert(x));
}

/// Reorders the messages newest-first, keeping exactly the same messages.
pub fn sort_messages_newest_first(messages: &mut Vec<Message>)
    ensures
        sorted_newest_first(final(messages)@),
        final(messages)@.to_multiset() == old(messages)@.to_multiset(),
{
    let ghost orig = messages@;
    let mut out: Vec<Message> = Vec::new();
    proof {
        assert(out@.to_multiset().add(messages@.to_multiset()) =~= orig.to_multiset());
    }
    while messages.len() > 0
        invariant
            sorted_newest_first(out@),
            out@.to_multiset().add(messages@.to_multiset()) == orig.to_multiset(),
        decreases messages@.len(),
    {
        let ghost msgs_before = messages@;
        let ghost out_before = out@;
        let x = match messages.pop() {
            Some(x) => x,
            None => {
                return ;
            },
        };
        let mut p: usize = 0;
        while p < out.len() && out[p].created_at >= x.created_at
            invariant
                p <= out@.len(),
                forall|k: int| 0 <= k < p as int ==> out@[k].created_at >= x.created_at,
            decreases out@.len() - p,
        {
            p = p + 1;
        }
        proof {
            out_before.insert_ensures(p as int, x);
        }
        out.insert(p, x);
        proof {
            assert forall|i: int, j: int|
                0 <= i < j < out@.len() implies out@[i].created_at >= out@[j].created_at by {
                if j < p as int {
                    assert(out@[i] == out_before[i] && out@[j] == out_before[j]);
                } else if i > p as int {
                    assert(out@[i] == out_before[i - 1] && out@[j] == out_before[j - 1]);
                } else if i < p as int && j == p as int {
                    assert(out@[i] == out_before[i]);
                } else if i == p as int {
                    assert(out@[j] == out_before[j - 1]);
                    assert(out_before[j - 1].created_at <= x.created_at);
                } else {
                    assert(out@[i] == out_before[i] && out@[j] == out_before[j - 1]);
                    assert(out_before[i].created_at >= x.created_at);
                }
            }
            lemma_insert_to_multiset(out_before, p as int, x);
            assert(msgs_before =~= messages@.push(x));
            assert(out@.to_multiset().add(messages@.to_multiset()) =~= orig.to_multiset());
        }
    }
    proof {
        assert(out@.to_multiset().add(messages@.to_multiset()) =~= out@.to_multiset());
    }
    *messages = out;
}

} // verus!
