//! Idempotency of webhook deliveries: the key of a delivery, and stores that
//! remember which keys were seen.
use crate::crypto::{hex_encode, sha256_digest, spec_hex_lower, spec_sha256};
use crate::verify::HeaderField;
use vstd::prelude::*;
use vstd::utf8::encode_utf8;

verus! {

/// The delivery id of a request: the `x-infisical-delivery-id` header's text,
/// or empty when it is missing or not text.
pub open spec fn spec_delivery_id(h: HeaderField) -> Seq<char> {
    match h {
        HeaderField::Text(s) => s@,
        _ => seq![],
    }
}

pub fn delivery_id(header: &HeaderField) -> (r: String)
    ensures
        r@ == spec_delivery_id(*header),
{
    match header {
        HeaderField::Text(s) => s.clone(),
        _ => String::new(),
    }
}

/// The key of a delivery: the lower-case hex SHA-256 of the provider name,
/// the delivery id and the body, one after the other.
pub open spec fn spec_event_key(provider: Seq<char>, delivery: Seq<char>, body: Seq<u8>) -> Seq<char> {
    spec_hex_lower(spec_sha256(encode_utf8(provider) + encode_utf8(delivery) + body))
}

pub fn build_event_key(provider_name: &str, delivery_id: &str, body: &[u8]) -> (r: String)
    ensures
        r@ == spec_event_key(provider_name@, delivery_id@, body@),
{
    let a = provider_name.as_bytes();
    let b = delivery_id.as_bytes();
    let mut data: Vec<u8> = Vec::new();
    let mut i: usize = 0;
    while i < a.len()
        invariant
            i <= a.len(),
            data@ == a@.take(i as int),
        decreases a.len() - i,
    {
        data.push(a[i]);
        assert(a@.take(i + 1) =~= a@.take(i as int).push(a@[i as int]));
        i = i + 1;
    }
    let mut j: usize = 0;
    assert(a@.take(a.len() as int) =~= a@);
    while j < b.len()
        invariant
            j <= b.len(),
            data@ == a@ + b@.take(j as int),
        decreases b.len() - j,
    {
        data.push(b[j]);
        assert(a@ + b@.take(j + 1) =~= a@ + b@.take(j as int) + seq![b@[j as int]]);
        j = j + 1;
    }
    let mut k: usize = 0;
    assert(b@.take(b.len() as int) =~= b@);
    while k < body.len()
        invariant
            k <= body.len(),
            data@ == a@ + b@ + body@.take(k as int),
        decreases body.len() - k,
    {
        data.push(body[k]);
        assert(a@ + b@ + body@.take(k + 1) =~= a@ + b@ + body@.take(k as int) + seq![
            body@[k as int],
        ]);
        k = k + 1;
    }
    assert(body@.take(body.len() as int) =~= body@);
    let digest = sha256_digest(data.as_slice());
    hex_encode(digest.as_slice())
}

/// A store of processed event keys.
pub trait IdempotencyStore {
    /// The keys seen so far.
    spec fn seen(&self) -> Set<Seq<char>>;

    /// Records `event_id` and says whether it was new.
    fn mark_if_new(&mut self, event_id: &str) -> (r: bool)
        ensures
            r == !old(self).seen().contains(event_id@),
            final(self).seen() == old(self).seen().insert(event_id@),
    ;
}

/// A key is new once: after it was marked, marking it again says it is not.
pub proof fn law_second_mark_is_duplicate(seen: Set<Seq<char>>, key: Seq<char>)
    ensures
        seen.insert(key).contains(key),
        seen.insert(key).insert(key) == seen.insert(key),
{
    assert(seen.insert(key).insert(key) =~= seen.insert(key));
}

/// An idempotency store held in memory.
pub struct MemoryIdempotencyStore {
    ids: Vec<String>,
}

impl MemoryIdempotencyStore {
    /// A store that has seen nothing.
    pub fn new() -> (r: Self)
        ensures
            r.seen() == Set::<Seq<char>>::empty(),
    {
        let r = MemoryIdempotencyStore { ids: Vec::new() };
        assert(r.seen() =~= Set::<Seq<char>>::empty());
        r
    }
}

impl IdempotencyStore for MemoryIdempotencyStore {
    closed spec fn seen(&self) -> Set<Seq<char>> {
        self.ids@.map_values(|s: String| s@).to_set()
    }

    fn mark_if_new(&mut self, event_id: &str) -> (r: bool) {
        let id = event_id.to_owned();
        let ghost ids = self.ids@.map_values(|s: String| s@);
        let mut i: usize = 0;
        while i < self.ids.len()
            invariant
                i <= self.ids.len(),
                ids == self.ids@.map_values(|s: String| s@),
                id@ == event_id@,
                forall|j: int| 0 <= j < i ==> ids[j] != event_id@,
            decreases self.ids.len() - i,
        {
            if self.ids[i] == id {
                proof {
                    assert(ids[i as int] == event_id@);
                    assert(ids.to_set().contains(event_id@));
                    assert(ids.to_set().insert(event_id@) =~= ids.to_set());
                }
                return false;
            }
            i = i + 1;
        }
        self.ids.push(id);
        proof {
            assert(!ids.contains(event_id@));
            assert(self.ids@.map_values(|s: String| s@) =~= ids.push(event_id@));
            assert(ids.push(event_id@).to_set() =~= ids.to_set().insert(event_id@)) by {
                assert forall|x: Seq<char>| ids.push(event_id@).to_set().contains(x) <==> ids.to_set().insert(event_id@).contains(x) by {
                    if ids.push(event_id@).contains(x) && x != event_id@ {
                        let j = choose|j: int| 0 <= j < ids.push(event_id@).len() && ids.push(event_id@)[j] == x;
                        assert(ids[j] == x);
                    }
                    if ids.contains(x) {
                        let j = choose|j: int| 0 <= j < ids.len() && ids[j] == x;
                        assert(ids.push(event_id@)[j] == x);
                    }
                    if x == event_id@ {
                        assert(ids.push(event_id@)[ids.len() as int] == x);
                    }
                }
            }
        }
        true
    }
}

} // verus!
