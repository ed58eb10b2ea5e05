//! Addresses and routes: the path a message follows, hop by hop.
//!
//! An address is a routing-type tag plus an opaque value; a route is an
//! ordered sequence of addresses used as a stack. The head of an onward
//! route is the next hop to consume; an empty route means the message
//! has arrived. On the wire a route is its address count followed by
//! each address, every address self-contained.

use crate::bare::{
    bytes_dec, bytes_enc, lemma_bytes_enc_dec, lemma_bytes_enc_truncated, lemma_varint_dec_used,
    lemma_varint_enc_dec, lemma_varint_enc_truncated, read_slice, read_varint, size_of_slice,
    size_of_varint, varint_dec, varint_enc, write_slice, write_varint,
};
use vstd::assert_seqs_equal;
use vstd::prelude::*;
use vstd::std_specs::cmp::PartialEqSpec;

verus! {

/// Ghost form of an address: the routing-type tag and the bytes of its
/// value.
pub ghost struct AddressV {
    pub transport_type: u8,
    pub data: Seq<u8>,
}

/// A routing token: a routing-type tag (an open-ended numbering, so new
/// transport kinds never break old decoders) plus an opaque value such
/// as a node identifier or a worker name. Immutable once built;
/// equality is structural.
#[derive(Clone, Debug)]
pub struct Address {
    /// Which kind of transport or local handler the value names.
    pub transport_type: u8,
    /// The opaque value of the token.
    pub data: Vec<u8>,
}

impl View for Address {
    type V = AddressV;

    open spec fn view(&self) -> AddressV {
        AddressV { transport_type: self.transport_type, data: self.data@ }
    }
}

impl Address {
    /// Builds an address from its tag and value.
    pub fn new(transport_type: u8, data: Vec<u8>) -> (r: Address)
        ensures
            r@ == (AddressV { transport_type, data: data@ }),
    {
        Address { transport_type, data }
    }
}

impl PartialEq for Address {
    fn eq(&self, other: &Self) -> (r: bool) {
        let same_data = self.data == other.data;
        proof {
            if same_data {
                assert_seqs_equal!(self.data@, other.data@);
            }
        }
        self.transport_type == other.transport_type && same_data
    }
}

impl Eq for Address {

}

impl vstd::std_specs::cmp::PartialEqSpecImpl for Address {
    open spec fn obeys_eq_spec() -> bool {
        true
    }

    open spec fn eq_spec(&self, other: &Self) -> bool {
        self@ == other@
    }
}

/// An ordered sequence of addresses: the path a message still has to
/// travel, or the path it has already travelled. A value type, copied
/// freely; its view is the sequence of its addresses' views.
#[derive(Clone, Debug)]
pub struct Route {
    /// The addresses, head first; the head is the next hop to consume.
    pub addresses: Vec<Address>,
}

impl View for Route {
    type V = Seq<AddressV>;

    open spec fn view(&self) -> Seq<AddressV> {
        self.addresses@.map_values(|a: Address| a@)
    }
}

impl PartialEq for Route {
    fn eq(&self, other: &Self) -> (r: bool) {
        let same = self.addresses == other.addresses;
        proof {
            if same {
                assert_seqs_equal!(self@, other@);
            } else {
                if self@ == other@ {
                    assert(self@.len() == self.addresses@.len());
                    assert(other@.len() == other.addresses@.len());
                    assert(self.addresses@.len() == other.addresses@.len());
                    assert forall|i: int| 0 <= i < self.addresses@.len() implies
                        #[trigger] self.addresses[i].eq_spec(&other.addresses[i]) by {
                        assert(self@[i] == other@[i]);
                    }
                    assert(false);
                }
            }
        }
        same
    }
}

impl Eq for Route {

}

impl vstd::std_specs::cmp::PartialEqSpecImpl for Route {
    open spec fn obeys_eq_spec() -> bool {
        true
    }

    open spec fn eq_spec(&self, other: &Self) -> bool {
        self@ == other@
    }
}

/// Wire form of one address: its tag byte, then its value as a
/// length-prefixed byte string.
pub open spec fn address_enc(a: AddressV) -> Seq<u8> {
    seq![a.transport_type] + bytes_enc(a.data)
}

/// Wire form of a run of addresses, one after the other.
pub open spec fn addresses_enc(r: Seq<AddressV>) -> Seq<u8>
    decreases r.len(),
{
    if r.len() == 0 {
        Seq::empty()
    } else {
        address_enc(r[0]) + addresses_enc(r.skip(1))
    }
}

/// Wire form of a route: its address count as a varint, then the
/// addresses.
pub open spec fn route_enc(r: Seq<AddressV>) -> Seq<u8> {
    varint_enc(r.len()) + addresses_enc(r)
}

/// Spec-level reader of one address.
pub open spec fn address_dec(s: Seq<u8>) -> Option<(AddressV, nat)> {
    if s.len() == 0 {
        None
    } else {
        match bytes_dec(s.skip(1)) {
            Some(t) => Some(
                (AddressV { transport_type: s[0], data: t.0 }, (t.1 + 1) as nat),
            ),
            None => None,
        }
    }
}

/// Spec-level reader of exactly `count` addresses in a row.
pub open spec fn addresses_dec(s: Seq<u8>, count: nat) -> Option<(Seq<AddressV>, nat)>
    decreases count,
{
    if count == 0 {
        Some((Seq::empty(), 0nat))
    } else {
        match address_dec(s) {
            Some(t) => match addresses_dec(s.skip(t.1 as int), (count - 1) as nat) {
                Some(t2) => Some((seq![t.0] + t2.0, (t.1 + t2.1) as nat)),
                None => None,
            },
            None => None,
        }
    }
}

/// Spec-level reader of a route: the count, then that many addresses.
pub open spec fn route_dec(s: Seq<u8>) -> Option<(Seq<AddressV>, nat)> {
    match varint_dec(s) {
        Some(t) => match addresses_dec(s.skip(t.1 as int), t.0) {
            Some(t2) => Some((t2.0, (t.1 + t2.1) as nat)),
            None => None,
        },
        None => None,
    }
}

/// Reading an encoded address back, with anything at all after it,
/// recovers it and consumes exactly its encoding.
pub proof fn lemma_address_enc_dec(a: AddressV, rest: Seq<u8>)
    ensures
        address_enc(a).len() >= 2,
        address_dec(address_enc(a) + rest) == Some((a, address_enc(a).len() as nat)),
{
    let s = address_enc(a) + rest;
    assert(s[0] == a.transport_type);
    assert_seqs_equal!(s.skip(1), bytes_enc(a.data) + rest);
    lemma_bytes_enc_dec(a.data, rest);
}

/// Cutting an encoded address anywhere before its end leaves nothing a
/// reader will accept.
pub proof fn lemma_address_enc_truncated(a: AddressV, j: int)
    requires
        0 <= j < address_enc(a).len(),
    ensures
        address_dec(address_enc(a).take(j)) is None,
{
    if j == 0 {
        assert(address_enc(a).take(0).len() == 0);
    } else {
        assert_seqs_equal!(address_enc(a).take(j).skip(1), bytes_enc(a.data).take(j - 1));
        lemma_bytes_enc_dec(a.data, Seq::empty());
        lemma_bytes_enc_truncated(a.data, j - 1);
    }
}

/// Encoding distributes over concatenation of address runs.
pub proof fn lemma_addresses_enc_append(a: Seq<AddressV>, b: Seq<AddressV>)
    ensures
        addresses_enc(a + b) == addresses_enc(a) + addresses_enc(b),
    decreases a.len(),
{
    if a.len() == 0 {
        assert_seqs_equal!(a + b, b);
        assert_seqs_equal!(addresses_enc(a) + addresses_enc(b), addresses_enc(b));
    } else {
        assert((a + b)[0] == a[0]);
        assert_seqs_equal!((a + b).skip(1), a.skip(1) + b);
        lemma_addresses_enc_append(a.skip(1), b);
        assert_seqs_equal!(
            address_enc(a[0]) + (addresses_enc(a.skip(1)) + addresses_enc(b)),
            (address_enc(a[0]) + addresses_enc(a.skip(1))) + addresses_enc(b)
        );
    }
}

/// One more address at the end of a run appends its encoding.
pub proof fn lemma_addresses_enc_snoc(s: Seq<AddressV>, i: int)
    requires
        0 <= i < s.len(),
    ensures
        addresses_enc(s.take(i + 1)) == addresses_enc(s.take(i)) + address_enc(s[i]),
{
    let one = seq![s[i]];
    assert_seqs_equal!(s.take(i + 1), s.take(i) + one);
    lemma_addresses_enc_append(s.take(i), one);
    assert(one[0] == s[i]);
    assert(one.skip(1).len() == 0);
    assert(addresses_enc(one.skip(1)) == Seq::<u8>::empty());
    assert_seqs_equal!(addresses_enc(one), address_enc(s[i]));
}

/// Reading an encoded run of addresses back, with anything at all after
/// it, recovers the run and consumes exactly its encoding.
pub proof fn lemma_addresses_enc_dec(r: Seq<AddressV>, rest: Seq<u8>)
    ensures
        addresses_dec(addresses_enc(r) + rest, r.len()) == Some(
            (r, addresses_enc(r).len() as nat),
        ),
    decreases r.len(),
{
    let s = addresses_enc(r) + rest;
    if r.len() == 0 {
        assert_seqs_equal!(r, Seq::<AddressV>::empty());
    } else {
        let e0 = address_enc(r[0]);
        let etail = addresses_enc(r.skip(1));
        assert_seqs_equal!(s, e0 + (etail + rest));
        lemma_address_enc_dec(r[0], etail + rest);
        assert_seqs_equal!(s.skip(e0.len() as int), etail + rest);
        lemma_addresses_enc_dec(r.skip(1), rest);
        assert_seqs_equal!(seq![r[0]] + r.skip(1), r);
    }
}

/// Cutting an encoded run of addresses anywhere before its end leaves
/// nothing a reader of that many addresses will accept.
pub proof fn lemma_addresses_enc_truncated(r: Seq<AddressV>, j: int)
    requires
        0 <= j < addresses_enc(r).len(),
    ensures
        addresses_dec(addresses_enc(r).take(j), r.len()) is None,
    decreases r.len(),
{
    let e0 = address_enc(r[0]);
    let etail = addresses_enc(r.skip(1));
    if j < e0.len() {
        assert_seqs_equal!(addresses_enc(r).take(j), e0.take(j));
        lemma_address_enc_truncated(r[0], j);
    } else {
        assert_seqs_equal!(addresses_enc(r).take(j), e0 + etail.take(j - e0.len()));
        lemma_address_enc_dec(r[0], etail.take(j - e0.len()));
        assert_seqs_equal!(
            (e0 + etail.take(j - e0.len())).skip(e0.len() as int),
            etail.take(j - e0.len())
        );
        lemma_addresses_enc_truncated(r.skip(1), j - e0.len());
    }
}

/// Reading an encoded route back, with anything at all after it,
/// recovers it and consumes exactly its encoding.
pub proof fn lemma_route_enc_dec(r: Seq<AddressV>, rest: Seq<u8>)
    ensures
        route_dec(route_enc(r) + rest) == Some((r, route_enc(r).len() as nat)),
{
    let v = varint_enc(r.len());
    let e = addresses_enc(r);
    let s = route_enc(r) + rest;
    assert_seqs_equal!(s, v + (e + rest));
    lemma_varint_enc_dec(r.len(), e + rest);
    assert_seqs_equal!(s.skip(v.len() as int), e + rest);
    lemma_addresses_enc_dec(r, rest);
}

/// Cutting an encoded route anywhere before its end leaves nothing a
/// reader will accept.
pub proof fn lemma_route_enc_truncated(r: Seq<AddressV>, j: int)
    requires
        0 <= j < route_enc(r).len(),
    ensures
        route_dec(route_enc(r).take(j)) is None,
{
    let v = varint_enc(r.len());
    let e = addresses_enc(r);
    if j < v.len() {
        assert_seqs_equal!(route_enc(r).take(j), v.take(j));
        lemma_varint_enc_truncated(r.len(), j);
    } else {
        assert_seqs_equal!(route_enc(r).take(j), v + e.take(j - v.len()));
        lemma_varint_enc_dec(r.len(), e.take(j - v.len()));
        assert_seqs_equal!(
            (v + e.take(j - v.len())).skip(v.len() as int),
            e.take(j - v.len())
        );
        lemma_addresses_enc_truncated(r, j - v.len());
    }
}

/// A run of addresses takes at least two bytes per address, so no run
/// longer than half the buffer can be read from it.
pub proof fn lemma_addresses_dec_count_bound(s: Seq<u8>, count: nat)
    requires
        addresses_dec(s, count) is Some,
    ensures
        2 * count <= s.len(),
    decreases count,
{
    if count > 0 {
        let t = address_dec(s).unwrap();
        lemma_varint_dec_used(s.skip(1));
        assert(t.1 >= 2);
        assert(t.1 <= s.len());
        lemma_addresses_dec_count_bound(s.skip(t.1 as int), (count - 1) as nat);
    }
}

/// Reads one address at `*pos`, advancing `*pos` past it.
fn read_address(s: &[u8], pos: &mut usize) -> (r: Option<Address>)
    requires
        *old(pos) <= s@.len(),
    ensures
        match r {
            Some(a) => {
                &&& address_dec(s@.skip(*old(pos) as int)) matches Some(t) && t.0 == a@
                    && t.1 == *final(pos) - *old(pos)
                &&& *old(pos) <= *final(pos) <= s@.len()
            },
            None => address_dec(s@.skip(*old(pos) as int)) is None,
        },
{
    let ghost t = s@.skip(*old(pos) as int);
    if *pos >= s.len() {
        proof {
            assert(t.len() == 0);
        }
        return None;
    }
    let tag: u8 = *vstd::slice::slice_index_get(s, *pos);
    proof {
        assert(t[0] == tag);
        assert_seqs_equal!(t.skip(1), s@.skip(*old(pos) + 1));
    }
    *pos = *pos + 1;
    match read_slice(s, pos) {
        Some(sub) => {
            let data = vstd::slice::slice_to_vec(sub);
            Some(Address { transport_type: tag, data })
        },
        None => None,
    }
}

impl Route {
    /// How many hops the route still holds.
    pub fn len(&self) -> (r: usize)
        ensures
            r == self@.len(),
    {
        self.addresses.len()
    }

    /// True when the route holds no hop at all: the message is at its
    /// destination.
    pub fn is_empty(&self) -> (r: bool)
        ensures
            r == (self@.len() == 0),
    {
        self.addresses.len() == 0
    }

    /// Builds a route from its addresses, head first.
    pub fn from_addresses(addresses: Vec<Address>) -> (r: Route)
        ensures
            r@ == addresses@.map_values(|a: Address| a@),
    {
        Route { addresses }
    }

    /// Removes and returns the head address — the next hop. `None`
    /// signals that the message has reached its destination and there
    /// is nothing left to route.
    pub fn pop_front(&mut self) -> (r: Option<Address>)
        ensures
            old(self)@.len() == 0 ==> r is None && final(self)@ == old(self)@,
            old(self)@.len() > 0 ==> {
                &&& r matches Some(a) && a@ == old(self)@[0]
                &&& final(self)@ == old(self)@.skip(1)
            },
    {
        if self.addresses.len() == 0 {
            None
        } else {
            let a = self.addresses.remove(0);
            proof {
                assert_seqs_equal!(self@, old(self)@.skip(1));
            }
            Some(a)
        }
    }

    /// Prepends an address: how the return route grows as the message
    /// is forwarded, so that replies can retrace the path.
    pub fn push_front(&mut self, a: Address)
        ensures
            final(self)@ == seq![a@] + old(self)@,
    {
        self.addresses.insert(0, a);
        proof {
            assert_seqs_equal!(self@, seq![a@] + old(self)@);
        }
    }

    /// Appends this route's wire form to `buf`: the address count, then
    /// each address's tag byte and length-prefixed value, in order.
    pub fn manual_encode(&self, buf: &mut Vec<u8>)
        ensures
            final(buf)@ == old(buf)@ + route_enc(self@),
    {
        let n = self.addresses.len();
        write_varint(buf, n as u64);
        let mut idx: usize = 0;
        while idx < n
            invariant
                idx <= n,
                n == self.addresses@.len(),
                n == self@.len(),
                buf@ == old(buf)@ + varint_enc(self@.len()) + addresses_enc(
                    self@.take(idx as int),
                ),
            decreases n - idx,
        {
            let a = &self.addresses[idx];
            buf.push(a.transport_type);
            write_slice(buf, a.data.as_slice());
            proof {
                lemma_addresses_enc_snoc(self@, idx as int);
                assert(self@[idx as int] == self.addresses@[idx as int]@);
                assert_seqs_equal!(
                    buf@,
                    old(buf)@ + varint_enc(self@.len())
                        + addresses_enc(self@.take(idx + 1))
                );
            }
            idx = idx + 1;
        }
        proof {
            assert_seqs_equal!(self@.take(n as int), self@);
            assert_seqs_equal!(buf@, old(buf)@ + route_enc(self@));
        }
    }

    /// The space `manual_encode` will take, or `None` when that exceeds
    /// what a buffer on this machine could hold.
    pub fn encoded_size(&self) -> (r: Option<usize>)
        ensures
            match r {
                Some(u) => u == route_enc(self@).len(),
                None => route_enc(self@).len() > usize::MAX,
            },
    {
        let n = self.addresses.len();
        let mut acc: usize = size_of_varint(n as u64);
        let mut idx: usize = 0;
        while idx < n
            invariant
                idx <= n,
                n == self.addresses@.len(),
                n == self@.len(),
                acc == varint_enc(self@.len()).len() + addresses_enc(
                    self@.take(idx as int),
                ).len(),
            decreases n - idx,
        {
            proof {
                lemma_route_enc_len_split(self@, idx as int);
                assert(self@[idx as int] == self.addresses@[idx as int]@);
            }
            let a = &self.addresses[idx];
            let slice_size = match size_of_slice(a.data.as_slice()) {
                Some(u) => u,
                None => {
                    return None;
                },
            };
            acc = match acc.checked_add(1) {
                Some(x) => x,
                None => {
                    return None;
                },
            };
            acc = match acc.checked_add(slice_size) {
                Some(x) => x,
                None => {
                    return None;
                },
            };
            proof {
                lemma_addresses_enc_snoc(self@, idx as int);
            }
            idx = idx + 1;
        }
        proof {
            assert_seqs_equal!(self@.take(n as int), self@);
        }
        Some(acc)
    }

    /// Reads a route at `*index`, advancing `*index` past it. Returns
    /// `None` when the buffer is exhausted early or the address count
    /// would need more bytes than remain — checked before any
    /// allocation sized by the untrusted count.
    pub fn manual_decode(s: &[u8], index: &mut usize) -> (r: Option<Route>)
        requires
            *old(index) <= s@.len(),
        ensures
            match r {
                Some(rt) => {
                    &&& route_dec(s@.skip(*old(index) as int)) matches Some(t) && t.0 == rt@
                        && t.1 == *final(index) - *old(index)
                    &&& *old(index) <= *final(index) <= s@.len()
                },
                None => route_dec(s@.skip(*old(index) as int)) is None,
            },
    {
        let ghost start = *old(index) as int;
        let ghost t = s@.skip(start);
        let slen = s.len();
        let count = match read_varint(s, index) {
            Some(c) => c,
            None => {
                proof {
                    match varint_dec(t) {
                        Some(tt) => {
                            lemma_varint_dec_used(t);
                            if addresses_dec(t.skip(tt.1 as int), tt.0) is Some {
                                lemma_addresses_dec_count_bound(t.skip(tt.1 as int), tt.0);
                            }
                        },
                        None => {},
                    }
                }
                return None;
            },
        };
        let ghost u0 = (*index - *old(index)) as nat;
        let mut out: Vec<Address> = Vec::new();
        let mut i: u64 = 0;
        proof {
            assert_seqs_equal!(t.skip(u0 as int).skip(0), t.skip(u0 as int));
            assert(out@.map_values(|a: Address| a@) =~= Seq::<AddressV>::empty());
            match addresses_dec(t.skip(u0 as int), count as nat) {
                Some(t2) => {
                    assert_seqs_equal!(Seq::<AddressV>::empty() + t2.0, t2.0);
                },
                None => {},
            }
        }
        while i < count
            invariant
                i <= count,
                *old(index) <= *index <= s@.len(),
                start == *old(index),
                t == s@.skip(start),
                varint_dec(t) matches Some(tt) && tt.0 == count as nat && tt.1 == u0,
                out@.len() == i,
                *index - start >= u0,
                match addresses_dec(t.skip(*index - start), (count - i) as nat) {
                    Some(t2) => addresses_dec(t.skip(u0 as int), count as nat) == Some(
                        (
                            out@.map_values(|a: Address| a@) + t2.0,
                            ((*index - start - u0) + t2.1) as nat,
                        ),
                    ),
                    None => addresses_dec(t.skip(u0 as int), count as nat) is None,
                },
            decreases count - i,
        {
            let ghost before = *index - start;
            proof {
                assert_seqs_equal!(t.skip(before), s@.skip(start + before));
            }
            let a = match read_address(s, index) {
                Some(a) => a,
                None => {
                    return None;
                },
            };
            proof {
                let ua = (*index - start - before) as nat;
                assert(address_dec(t.skip(before)) matches Some(ta) && ta.0 == a@
                    && ta.1 == ua);
                assert_seqs_equal!(
                    t.skip(before).skip(ua as int),
                    t.skip(*index - start)
                );
                assert_seqs_equal!(
                    out@.map_values(|x: Address| x@) + seq![a@],
                    (out@ + seq![a]).map_values(|x: Address| x@)
                );
                match addresses_dec(t.skip(*index - start), (count - i - 1) as nat) {
                    Some(t2) => {
                        assert_seqs_equal!(
                            out@.map_values(|x: Address| x@) + (seq![a@] + t2.0),
                            (out@ + seq![a]).map_values(|x: Address| x@) + t2.0
                        );
                    },
                    None => {},
                }
            }
            out.push(a);
            i = i + 1;
        }
        proof {
            assert(addresses_dec(t.skip(*index - start), 0nat) == Some(
                (Seq::<AddressV>::empty(), 0nat),
            ));
            assert_seqs_equal!(
                out@.map_values(|a: Address| a@) + Seq::<AddressV>::empty(),
                out@.map_values(|a: Address| a@)
            );
        }
        let rt = Route { addresses: out };
        Some(rt)
    }
}

/// A route's encoding is at least as long as any prefix of its
/// addresses plus the one that follows them.
proof fn lemma_route_enc_len_split(s: Seq<AddressV>, i: int)
    requires
        0 <= i < s.len(),
    ensures
        route_enc(s).len() >= varint_enc(s.len()).len() + addresses_enc(s.take(i)).len() + 1
            + bytes_enc(s[i].data).len(),
{
    assert_seqs_equal!(s.take(i + 1) + s.skip(i + 1), s);
    lemma_addresses_enc_append(s.take(i + 1), s.skip(i + 1));
    lemma_addresses_enc_snoc(s, i);
}

} // verus!
