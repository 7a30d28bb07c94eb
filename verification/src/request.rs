use vstd::prelude::*;
use vstd::utf8::{encode_utf8, is_ascii_chars, is_ascii_chars_encode_utf8};
use crate::transfer::append_bytes;

verus! {

// A transfer request is the control message `filename:<name>:filename`:
// the archive's externally visible name between a fixed nine-byte prefix
// and suffix. Parsing strips exactly those two delimiters, so a request
// always parses back to the name it was built from; a message missing
// either delimiter occurrence is a protocol violation. The
// acknowledgement is the literal text `OK`: anything else is a rejection.

/// The bytes of the request prefix, the text `filename:`.
pub open spec fn request_prefix() -> Seq<u8> {
    seq![102u8, 105u8, 108u8, 101u8, 110u8, 97u8, 109u8, 101u8, 58u8]
}

/// The bytes of the request suffix, the text `:filename`.
pub open spec fn request_suffix() -> Seq<u8> {
    seq![58u8, 102u8, 105u8, 108u8, 101u8, 110u8, 97u8, 109u8, 101u8]
}

/// The acknowledgement payload, the two bytes of the text `OK`.
pub open spec fn ack_ok() -> Seq<u8> {
    seq![79u8, 75u8]
}

/// The delimiter and acknowledgement bytes spell exactly their texts.
pub proof fn lemma_literals_are_text()
    ensures
        request_prefix() == encode_utf8("filename:"@),
        request_suffix() == encode_utf8(":filename"@),
        ack_ok() == encode_utf8("OK"@),
{
    reveal_strlit("filename:");
    reveal_strlit(":filename");
    reveal_strlit("OK");
    assert(is_ascii_chars("filename:"@));
    assert(is_ascii_chars(":filename"@));
    assert(is_ascii_chars("OK"@));
    is_ascii_chars_encode_utf8("filename:"@);
    is_ascii_chars_encode_utf8(":filename"@);
    is_ascii_chars_encode_utf8("OK"@);
    assert(request_prefix() =~= encode_utf8("filename:"@));
    assert(request_suffix() =~= encode_utf8(":filename"@));
    assert(ack_ok() =~= encode_utf8("OK"@));
}

/// The full request message for a given archive name.
pub open spec fn request_spec(name: Seq<u8>) -> Seq<u8> {
    request_prefix() + name + request_suffix()
}

/// Whether a message has the delimited request form.
pub open spec fn is_request(m: Seq<u8>) -> bool {
    &&& m.len() >= 18
    &&& m.subrange(0, 9) == request_prefix()
    &&& m.subrange(m.len() - 9, m.len() as int) == request_suffix()
}

/// The archive name carried by a well-formed request.
pub open spec fn request_name(m: Seq<u8>) -> Seq<u8>
    recommends
        is_request(m),
{
    m.subrange(9, m.len() - 9)
}

/// Request round-trip: a formatted request is well-formed and parses back
/// to exactly the name it was built from, whatever the name holds.
pub proof fn lemma_request_round_trip(name: Seq<u8>)
    ensures
        is_request(request_spec(name)),
        request_name(request_spec(name)) == name,
{
    assert(request_spec(name).subrange(0, 9) =~= request_prefix());
    assert(request_spec(name).subrange(
        request_spec(name).len() - 9,
        request_spec(name).len() as int,
    ) =~= request_suffix());
    assert(request_spec(name).subrange(9, request_spec(name).len() - 9) =~= name);
}

fn request_prefix_vec() -> (r: Vec<u8>)
    ensures
        r@ == request_prefix(),
{
    let mut r: Vec<u8> = Vec::new();
    r.push(102);
    r.push(105);
    r.push(108);
    r.push(101);
    r.push(110);
    r.push(97);
    r.push(109);
    r.push(101);
    r.push(58);
    proof {
        assert(r@ =~= request_prefix());
    }
    r
}

fn request_suffix_vec() -> (r: Vec<u8>)
    ensures
        r@ == request_suffix(),
{
    let mut r: Vec<u8> = Vec::new();
    r.push(58);
    r.push(102);
    r.push(105);
    r.push(108);
    r.push(101);
    r.push(110);
    r.push(97);
    r.push(109);
    r.push(101);
    proof {
        assert(r@ =~= request_suffix());
    }
    r
}

/// Build the request message that announces an archive name.
pub fn format_request(name: &[u8]) -> (r: Vec<u8>)
    ensures
        r@ == request_spec(name@),
{
    let mut r = request_prefix_vec();
    append_bytes(&mut r, name);
    let suffix = request_suffix_vec();
    append_bytes(&mut r, suffix.as_slice());
    r
}

/// Parse a request message: the archive name if the message has the
/// delimited form, and nothing exactly when it does not.
pub fn parse_request(m: &[u8]) -> (r: Option<Vec<u8>>)
    ensures
        r is Some <==> is_request(m@),
        r matches Some(name) ==> name@ == request_name(m@),
{
    if m.len() < 18 {
        return None;
    }
    let prefix = request_prefix_vec();
    let mut i: usize = 0;
    while i < 9
        invariant
            m@.len() >= 18,
            prefix@ == request_prefix(),
            i <= 9,
            forall|k: int| 0 <= k < i ==> m@[k] == request_prefix()[k],
        decreases 9 - i,
    {
        if m[i] != prefix[i] {
            proof {
                assert(!is_request(m@)) by {
                    if is_request(m@) {
                        assert(m@.subrange(0, 9)[i as int] == m@[i as int]);
                    }
                }
            }
            return None;
        }
        i += 1;
    }
    let suffix = request_suffix_vec();
    let base = m.len() - 9;
    let mut j: usize = 0;
    while j < 9
        invariant
            m@.len() >= 18,
            base == m@.len() - 9,
            base + 9 <= usize::MAX,
            suffix@ == request_suffix(),
            j <= 9,
            forall|k: int| 0 <= k < j ==> m@[base + k] == request_suffix()[k],
        decreases 9 - j,
    {
        if m[base + j] != suffix[j] {
            proof {
                assert(!is_request(m@)) by {
                    if is_request(m@) {
                        assert(m@.subrange(m@.len() - 9, m@.len() as int)[j as int] == m@[base
                            + j as int]);
                    }
                }
            }
            return None;
        }
        j += 1;
    }
    proof {
        assert(m@.subrange(0, 9) =~= request_prefix());
        assert(m@.subrange(m@.len() - 9, m@.len() as int) =~= request_suffix());
    }
    let mut name: Vec<u8> = Vec::new();
    let mut k: usize = 9;
    while k < base
        invariant
            m@.len() >= 18,
            base == m@.len() - 9,
            9 <= k <= base,
            name@ == m@.subrange(9, k as int),
        decreases base - k,
    {
        name.push(m[k]);
        proof {
            assert(m@.subrange(9, k + 1 as int) =~= m@.subrange(9, k as int).push(m@[k as int]));
        }
        k += 1;
    }
    Some(name)
}

/// The exact acknowledgement message, the text `OK`.
pub fn ok_message() -> (r: Vec<u8>)
    ensures
        r@ == ack_ok(),
{
    let mut r: Vec<u8> = Vec::new();
    r.push(79);
    r.push(75);
    proof {
        assert(r@ =~= ack_ok());
    }
    r
}

/// Whether an acknowledgement message is exactly `OK`: any other content
/// is a rejection.
pub fn is_ack_ok(m: &[u8]) -> (r: bool)
    ensures
        r == (m@ == ack_ok()),
{
    if m.len() != 2 {
        proof {
            assert(m@ != ack_ok()) by {
                if m@ == ack_ok() {
                    assert(m@.len() == 2);
                }
            }
        }
        return false;
    }
    let r = m[0] == 79 && m[1] == 75;
    proof {
        if r {
            assert(m@ =~= ack_ok());
        } else {
            assert(m@ != ack_ok()) by {
                if m@ == ack_ok() {
                    assert(m@[0] == 79 && m@[1] == 75);
                }
            }
        }
    }
    r
}

} // verus!
