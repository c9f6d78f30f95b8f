//! What the listener makes of each datagram it receives.
use vstd::prelude::*;
use crate::magic::{frame_parse, lossy_utf8, parse_magic, MagicError};

verus! {

/// What a listener called `me` delivers for one datagram: the sender's name
/// and the payload, or nothing when the frame is refused or is its own.
pub open spec fn delivered_one(data: Seq<u8>, me: Seq<char>) -> Option<(Seq<char>, Seq<u8>)> {
    match frame_parse(data) {
        Ok((name, payload)) => if lossy_utf8(name) == me {
            None
        } else {
            Some((lossy_utf8(name), payload))
        },
        Err(_) => None,
    }
}

/// The stream that a listener called `me` delivers for datagrams received
/// in the order of `ds`.
pub open spec fn delivered(ds: Seq<Seq<u8>>, me: Seq<char>) -> Seq<(Seq<char>, Seq<u8>)>
    decreases ds.len(),
{
    if ds.len() == 0 {
        Seq::empty()
    } else {
        let rest = delivered(ds.drop_last(), me);
        match delivered_one(ds.last(), me) {
            Some(x) => rest.push(x),
            None => rest,
        }
    }
}

/// Decode one datagram for a listener called `me`. Refused frames and the
/// listener's own datagrams give `Err`; the error says why, and is
/// `None` for an own datagram.
pub fn receive_datagram(data: &[u8], me: &String) -> (r: Result<(String, Vec<u8>), Option<MagicError>>)
    ensures
        match delivered_one(data@, me@) {
            Some((name, payload)) => r matches Ok((n, p)) && n@ == name && p@ == payload,
            None => r is Err,
        },
        r matches Err(Some(e)) ==> frame_parse(data@) == Err::<(Seq<u8>, Seq<u8>), MagicError>(e),
        r matches Err(None) ==> frame_parse(data@) is Ok,
{
    match parse_magic(data) {
        Ok((name, payload)) => {
            if name == *me {
                Err(None)
            } else {
                Ok((name, payload))
            }
        },
        Err(e) => Err(Some(e)),
    }
}

/// A datagram of foreign traffic, received between any two others, leaves
/// the delivered stream as it was.
pub proof fn lemma_foreign_datagram_ignored(
    before: Seq<Seq<u8>>,
    bad: Seq<u8>,
    after: Seq<Seq<u8>>,
    me: Seq<char>,
)
    requires
        frame_parse(bad) == Err::<(Seq<u8>, Seq<u8>), MagicError>(MagicError::InvalidMagic),
    ensures
        delivered(before.push(bad) + after, me) == delivered(before + after, me),
    decreases after.len(),
{
    if after.len() == 0 {
        assert(before.push(bad) + after =~= before.push(bad));
        assert(before + after =~= before);
        assert(before.push(bad).drop_last() =~= before);
    } else {
        let shorter = after.drop_last();
        lemma_foreign_datagram_ignored(before, bad, shorter, me);
        assert((before.push(bad) + after).drop_last() =~= before.push(bad) + shorter);
        assert((before + after).drop_last() =~= before + shorter);
        assert((before.push(bad) + after).last() == after.last());
        assert((before + after).last() == after.last());
    }
}

} // verus!
