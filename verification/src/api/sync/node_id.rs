//! Node ids and their hexadecimal form.

use crate::text::chars_of;
use vstd::prelude::*;

verus! {

/// The id of a device: its public key.
pub type NodeId = [u8; 32];

/// A hexadecimal digit, in lower case.
pub open spec fn hex_digit(d: int) -> char {
    if d < 10 {
        (48 + d) as char
    } else {
        (87 + d) as char
    }
}

/// Bytes in hexadecimal notation, two lower-case digits each.
pub open spec fn hex_of(bytes: Seq<u8>) -> Seq<char>
    decreases bytes.len(),
{
    if bytes.len() == 0 {
        Seq::empty()
    } else {
        hex_of(bytes.drop_last()).push(hex_digit(bytes.last() as int / 16)).push(
            hex_digit(bytes.last() as int % 16),
        )
    }
}

/// The number that a hexadecimal digit stands for, in either case.
pub open spec fn digit_value(c: char) -> Option<u8> {
    if '0' <= c <= '9' {
        Some((c as u8 - 48) as u8)
    } else if 'a' <= c <= 'f' {
        Some((c as u8 - 87) as u8)
    } else if 'A' <= c <= 'F' {
        Some((c as u8 - 55) as u8)
    } else {
        None
    }
}

/// The byte that the `i`th pair of hexadecimal digits stands for.
pub open spec fn byte_at(s: Seq<char>, i: int) -> Option<u8> {
    match (digit_value(s[2 * i]), digit_value(s[2 * i + 1])) {
        (Some(hi), Some(lo)) => Some((hi * 16 + lo) as u8),
        _ => None,
    }
}

/// Whether the bytes are what a text of hexadecimal digits stands for.
pub open spec fn is_hex_of(s: Seq<char>, bytes: Seq<u8>) -> bool {
    &&& s.len() == 2 * bytes.len()
    &&& forall|i: int| 0 <= i < bytes.len() ==> byte_at(s, i) == Some(#[trigger] bytes[i])
}

/// The node id that a text stands for: there is one exactly if the text has
/// sixty-four hexadecimal digits and nothing else.
pub open spec fn node_of_hex(s: Seq<char>) -> Option<Seq<u8>> {
    if s.len() == 64 && forall|i: int| 0 <= i < 32 ==> (#[trigger] byte_at(s, i)) is Some {
        Some(Seq::new(32, |i: int| byte_at(s, i)->Some_0))
    } else {
        None
    }
}

fn hex_char(d: u8) -> (c: char)
    requires
        d < 16,
    ensures
        c == hex_digit(d as int),
{
    if d < 10 {
        (48u8 + d) as char
    } else {
        (87u8 + d) as char
    }
}

/// `bytes` in hexadecimal notation.
pub fn hex_text(bytes: &[u8]) -> (r: String)
    ensures
        r@ == hex_of(bytes@),
{
    let mut r = String::new();
    let mut i: usize = 0;
    assert(bytes@.take(0) =~= Seq::<u8>::empty());
    while i < bytes.len()
        invariant
            i <= bytes@.len(),
            r@ == hex_of(bytes@.take(i as int)),
        decreases bytes@.len() - i,
    {
        let b = bytes[i];
        r.push(hex_char(b / 16));
        r.push(hex_char(b % 16));
        assert(bytes@.take(i + 1).drop_last() =~= bytes@.take(i as int));
        i = i + 1;
    }
    assert(bytes@.take(bytes@.len() as int) =~= bytes@);
    r
}

/// The hexadecimal form of a node id.
pub fn node_id_hex(id: &NodeId) -> (r: String)
    ensures
        r@ == hex_of(id@),
{
    hex_text(id)
}

fn digit(c: char) -> (r: Option<u8>)
    ensures
        r == digit_value(c),
{
    if '0' <= c && c <= '9' {
        Some(c as u8 - 48)
    } else if 'a' <= c && c <= 'f' {
        Some(c as u8 - 87)
    } else if 'A' <= c && c <= 'F' {
        Some(c as u8 - 55)
    } else {
        None
    }
}

/// The node id that a hexadecimal text stands for.
pub fn node_id_from_hex(s: &str) -> (r: Option<NodeId>)
    ensures
        match r {
            Some(id) => node_of_hex(s@) == Some(id@),
            None => node_of_hex(s@) is None,
        },
{
    let v = chars_of(s);
    if v.len() != 64 {
        return None;
    }
    let mut id: NodeId = [0u8; 32];
    let mut i: usize = 0;
    while i < 32
        invariant
            v@ == s@,
            v@.len() == 64,
            i <= 32,
            forall|k: int| 0 <= k < i ==> byte_at(s@, k) == Some(#[trigger] id@[k]),
        decreases 32 - i,
    {
        match (digit(v[2 * i]), digit(v[2 * i + 1])) {
            (Some(hi), Some(lo)) => {
                let ghost before = id@;
                id[i] = hi * 16 + lo;
                assert(id@ =~= before.update(i as int, (hi * 16 + lo) as u8));
            },
            _ => {
                assert(byte_at(s@, i as int) is None);
                return None;
            },
        }
        i = i + 1;
    }
    assert forall|k: int| 0 <= k < 32 implies (#[trigger] byte_at(s@, k)) is Some by {
        assert(byte_at(s@, k) == Some(id@[k]));
    }
    assert(Seq::new(32, |k: int| byte_at(s@, k)->Some_0) =~= id@);
    Some(id)
}

/// Whether two node ids are the same.
pub fn same_node(a: &NodeId, b: &NodeId) -> (r: bool)
    ensures
        r == (a@ == b@),
{
    let mut i: usize = 0;
    while i < 32
        invariant
            i <= 32,
            forall|k: int| 0 <= k < i ==> a@[k] == b@[k],
        decreases 32 - i,
    {
        if a[i] != b[i] {
            assert(a@[i as int] != b@[i as int]);
            return false;
        }
        i = i + 1;
    }
    assert(a@ =~= b@);
    true
}

/// Whether a list holds a node id.
pub open spec fn holds_node(ids: Seq<NodeId>, id: Seq<u8>) -> bool {
    exists|i: int| 0 <= i < ids.len() && (#[trigger] ids[i])@ == id
}

/// Whether a list holds a node id.
pub fn list_holds_node(ids: &Vec<NodeId>, id: &NodeId) -> (r: bool)
    ensures
        r == holds_node(ids@, id@),
{
    let mut i: usize = 0;
    while i < ids.len()
        invariant
            i <= ids@.len(),
            forall|k: int| 0 <= k < i ==> (#[trigger] ids@[k])@ != id@,
        decreases ids@.len() - i,
    {
        if same_node(&ids[i], id) {
            return true;
        }
        i = i + 1;
    }
    false
}

proof fn lemma_hex_shape(bytes: Seq<u8>)
    ensures
        hex_of(bytes).len() == 2 * bytes.len(),
        forall|i: int|
            #![trigger bytes[i]]
            0 <= i < bytes.len() ==> hex_of(bytes)[2 * i] == hex_digit(bytes[i] as int / 16)
                && hex_of(bytes)[2 * i + 1] == hex_digit(bytes[i] as int % 16),
    decreases bytes.len(),
{
    if bytes.len() > 0 {
        let before = bytes.drop_last();
        lemma_hex_shape(before);
        assert forall|i: int|
            #![trigger bytes[i]]
            0 <= i < bytes.len() implies hex_of(bytes)[2 * i] == hex_digit(bytes[i] as int / 16)
            && hex_of(bytes)[2 * i + 1] == hex_digit(bytes[i] as int % 16) by {
            if i < bytes.len() - 1 {
                assert(before[i] == bytes[i]);
            }
        }
    }
}

/// Reading the hexadecimal form of bytes gives these bytes and no others.
pub proof fn law_hex_round_trip(bytes: Seq<u8>, others: Seq<u8>)
    ensures
        is_hex_of(hex_of(bytes), bytes),
        is_hex_of(hex_of(bytes), others) ==> others == bytes,
{
    lemma_hex_shape(bytes);
    assert forall|i: int| #![trigger bytes[i]] 0 <= i < bytes.len() implies {
        &&& digit_value(hex_of(bytes)[2 * i]) == Some((bytes[i] / 16) as u8)
        &&& digit_value(hex_of(bytes)[2 * i + 1]) == Some((bytes[i] % 16) as u8)
    } by {}
    assert forall|i: int| 0 <= i < bytes.len() implies byte_at(hex_of(bytes), i) == Some(
        #[trigger] bytes[i],
    ) by {}
    if is_hex_of(hex_of(bytes), others) {
        assert forall|i: int| 0 <= i < bytes.len() implies others[i] == bytes[i] by {
            let b = bytes[i];
            let o = others[i];
        }
        assert(others =~= bytes);
    }
}

/// Reading the hexadecimal form of a node id gives the node id back.
pub proof fn law_node_id_round_trip(id: Seq<u8>)
    requires
        id.len() == 32,
    ensures
        node_of_hex(hex_of(id)) == Some(id),
{
    law_hex_round_trip(id, id);
    let s = hex_of(id);
    assert forall|i: int| 0 <= i < 32 implies (#[trigger] byte_at(s, i)) is Some by {
        assert(byte_at(s, i) == Some(id[i]));
    }
    assert(Seq::new(32, |i: int| byte_at(s, i)->Some_0) =~= id);
}

/// Different node ids have different hexadecimal forms.
pub proof fn law_hex_tells_nodes_apart(a: Seq<u8>, b: Seq<u8>)
    requires
        hex_of(a) == hex_of(b),
    ensures
        a == b,
{
    law_hex_round_trip(a, b);
    law_hex_round_trip(b, a);
}

} // verus!
