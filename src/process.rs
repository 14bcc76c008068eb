use vstd::prelude::*;
use crate::types::{Byte32, Header};

verus! {

/// Most headers sent in one reply.
pub const MAX_HEADERS_LEN: usize = 2000;

/// Whether some header of `chain` has hash `h`.
pub open spec fn on_chain(chain: Seq<Header>, h: Byte32) -> bool {
    exists|i: int| 0 <= i < chain.len() && (#[trigger] chain[i]).hash == h
}

/// `a` is the first position of `chain` with hash `h`.
pub open spec fn first_position(chain: Seq<Header>, h: Byte32, a: int) -> bool {
    &&& 0 <= a < chain.len()
    &&& chain[a].hash == h
    &&& forall|j: int| 0 <= j < a ==> (#[trigger] chain[j]).hash != h
}

/// Where a reply that starts after position `a` ends (exclusive): after at
/// most `MAX_HEADERS_LEN` headers, at the end of the chain, or right after
/// the header with hash `stop`, whichever comes first.
pub open spec fn reply_end(chain: Seq<Header>, a: int, stop: Byte32, e: int) -> bool {
    let cap = if chain.len() < a + 1 + MAX_HEADERS_LEN {
        chain.len() as int
    } else {
        a + 1 + MAX_HEADERS_LEN
    };
    ||| (e == cap && forall|s: int| a + 1 <= s < cap ==> (#[trigger] chain[s]).hash != stop)
    ||| (a + 1 < e <= cap && chain[e - 1].hash == stop && forall|s: int|
        a + 1 <= s < e - 1 ==> (#[trigger] chain[s]).hash != stop)
}

/// The reply built from locator entry `k`, found at chain position `a`, and
/// ending at `e`.
pub open spec fn reply_from(
    chain: Seq<Header>,
    locator: Seq<Byte32>,
    stop: Byte32,
    k: int,
    a: int,
    e: int,
    r: Seq<Header>,
) -> bool {
    &&& 0 <= k < locator.len()
    &&& forall|j: int| 0 <= j < k ==> !on_chain(chain, #[trigger] locator[j])
    &&& first_position(chain, locator[k], a)
    &&& reply_end(chain, a, stop, e)
    &&& r == chain.subrange(a + 1, e)
}

/// The headers to answer a GetHeaders with, against our main chain `chain`
/// (position = height): the common ancestor is the first locator entry we
/// have, and the reply is the headers that follow it, ascending, up to
/// `MAX_HEADERS_LEN` and up to `stop` included. Without a common ancestor
/// the reply is empty.
pub open spec fn getheaders_reply(
    chain: Seq<Header>,
    locator: Seq<Byte32>,
    stop: Byte32,
    r: Seq<Header>,
) -> bool {
    if forall|j: int| 0 <= j < locator.len() ==> !on_chain(chain, #[trigger] locator[j]) {
        r.len() == 0
    } else {
        exists|k: int, a: int, e: int| #[trigger] reply_from(chain, locator, stop, k, a, e, r)
    }
}

/// The first position of `chain` whose hash is `h`.
fn position_of(chain: &Vec<Header>, h: &Byte32) -> (r: Option<usize>)
    ensures
        match r {
            Some(a) => first_position(chain@, *h, a as int),
            None => !on_chain(chain@, *h),
        },
{
    let mut i: usize = 0;
    while i < chain.len()
        invariant
            i <= chain@.len(),
            forall|j: int| 0 <= j < i ==> (#[trigger] chain@[j]).hash != *h,
        decreases chain@.len() - i,
    {
        if chain[i].hash == *h {
            return Some(i);
        }
        i = i + 1;
    }
    None
}

/// Answers a GetHeaders from our main chain `chain`, where the header at
/// position `i` has height `i`.
pub fn headers_after_locator(chain: &Vec<Header>, locator: &Vec<Byte32>, hash_stop: &Byte32) -> (r:
    Vec<Header>)
    ensures
        getheaders_reply(chain@, locator@, *hash_stop, r@),
{
    let mut k: usize = 0;
    let mut found: Option<usize> = None;
    while k < locator.len() && found.is_none()
        invariant
            k <= locator@.len(),
            forall|j: int| 0 <= j < k ==> !on_chain(chain@, #[trigger] locator@[j]),
            found matches Some(a) ==> k < locator@.len() && first_position(
                chain@,
                locator@[k as int],
                a as int,
            ),
        decreases locator@.len() - k, if found is None { 1int } else { 0int },
    {
        match position_of(chain, &locator[k]) {
            Some(a) => {
                found = Some(a);
            },
            None => {
                k = k + 1;
            },
        }
    }
    match found {
        None => Vec::new(),
        Some(a) => {
            assert(first_position(chain@, locator@[k as int], a as int));
            let cap: usize = if chain.len() - (a + 1) < MAX_HEADERS_LEN {
                chain.len()
            } else {
                a + 1 + MAX_HEADERS_LEN
            };
            let mut r: Vec<Header> = Vec::new();
            let mut i: usize = a + 1;
            let mut stopped = false;
            while i < cap && !stopped
                invariant
                    a + 1 <= i <= cap,
                    cap <= chain@.len(),
                    r@ == chain@.subrange(a + 1, i as int),
                    !stopped ==> forall|s: int|
                        a + 1 <= s < i ==> (#[trigger] chain@[s]).hash != *hash_stop,
                    stopped ==> (a + 1 < i && chain@[i - 1].hash == *hash_stop && forall|s: int|
                        a + 1 <= s < i - 1 ==> (#[trigger] chain@[s]).hash != *hash_stop),
                decreases cap - i,
            {
                let h = chain[i];
                r.push(h);
                assert(r@ =~= chain@.subrange(a + 1, i + 1));
                if h.hash == *hash_stop {
                    stopped = true;
                }
                i = i + 1;
            }
            assert(reply_from(chain@, locator@, *hash_stop, k as int, a as int, i as int, r@));
            r
        },
    }
}

/// Whether each header of the batch extends the one before it: the parent
/// hash names the previous header and the height is one more.
pub open spec fn contiguous(headers: Seq<Header>) -> bool {
    forall|i: int|
        0 < i < headers.len() ==> (#[trigger] headers[i]).parent_hash == headers[i - 1].hash
            && headers[i].number == headers[i - 1].number + 1
}

/// Checks that a batch of headers is contiguous.
pub fn headers_contiguous(headers: &Vec<Header>) -> (r: bool)
    ensures
        r == contiguous(headers@),
{
    let mut i: usize = 1;
    while i < headers.len()
        invariant
            1 <= i,
            forall|j: int|
                0 < j < i && j < headers@.len() ==> (#[trigger] headers@[j]).parent_hash
                    == headers@[j - 1].hash && headers@[j].number == headers@[j - 1].number + 1,
        decreases headers@.len() - i,
    {
        let prev = headers[i - 1];
        let cur = headers[i];
        if cur.parent_hash != prev.hash || prev.number == u64::MAX || cur.number != prev.number
            + 1 {
            return false;
        }
        i = i + 1;
    }
    true
}

} // verus!
