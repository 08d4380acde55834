//! The order of addresses: that of their bytes, as a store keyed by address
//! walks them.
use vstd::prelude::*;
use vstd::utf8::encode_utf8;

verus! {

/// One run of bytes comes before another: at the first place where the two
/// differ it holds the smaller byte, or it ends there and the other goes
/// on.
pub open spec fn bytes_precede(a: Seq<u8>, b: Seq<u8>) -> bool
    decreases a.len(),
{
    if b.len() == 0 {
        false
    } else if a.len() == 0 {
        true
    } else if a[0] != b[0] {
        a[0] < b[0]
    } else {
        bytes_precede(a.drop_first(), b.drop_first())
    }
}

/// One address comes before another, by the bytes of the two.
pub open spec fn precedes(a: Seq<char>, b: Seq<char>) -> bool {
    bytes_precede(encode_utf8(a), encode_utf8(b))
}

/// An address lies above a cursor: it comes after it, and any address lies
/// above no cursor.
pub open spec fn is_above(cursor: Option<Seq<char>>, address: Seq<char>) -> bool {
    match cursor {
        Some(c) => precedes(c, address),
        None => true,
    }
}

/// The position of the least of the addresses that lie above the cursor,
/// the first such position where an address stands twice.
pub open spec fn least_above(addresses: Seq<Seq<char>>, cursor: Option<Seq<char>>) -> Option<int>
    decreases addresses.len(),
{
    if addresses.len() == 0 {
        None
    } else {
        let last = addresses.len() - 1;
        match least_above(addresses.drop_last(), cursor) {
            Some(i) => if is_above(cursor, addresses[last]) && precedes(
                addresses[last],
                addresses[i],
            ) {
                Some(last)
            } else {
                Some(i)
            },
            None => if is_above(cursor, addresses[last]) {
                Some(last)
            } else {
                None
            },
        }
    }
}

/// The positions of the first `limit` addresses above the cursor, in rising
/// order of address.
pub open spec fn rising_from(addresses: Seq<Seq<char>>, cursor: Option<Seq<char>>, limit: nat) -> Seq<
    int,
>
    decreases limit,
{
    if limit == 0 {
        Seq::empty()
    } else {
        match least_above(addresses, cursor) {
            None => Seq::empty(),
            Some(i) => seq![i] + rising_from(addresses, Some(addresses[i]), (limit - 1) as nat),
        }
    }
}

/// The addresses of a list of texts.
pub open spec fn views(addresses: Seq<&String>) -> Seq<Seq<char>> {
    Seq::new(addresses.len(), |i: int| addresses[i]@)
}

/// Tells whether one address comes before another.
pub fn address_precedes(a: &String, b: &String) -> (r: bool)
    ensures
        r == precedes(a@, b@),
{
    let x = a.as_str().as_bytes();
    let y = b.as_str().as_bytes();
    let mut i: usize = 0;
    assert(x@.skip(0) =~= x@);
    assert(y@.skip(0) =~= y@);
    while i < x.len() && i < y.len()
        invariant
            i <= x@.len(),
            i <= y@.len(),
            x@ == encode_utf8(a@),
            y@ == encode_utf8(b@),
            bytes_precede(x@, y@) == bytes_precede(x@.skip(i as int), y@.skip(i as int)),
        decreases x@.len() - i,
    {
        assert(x@.skip(i as int).drop_first() =~= x@.skip(i + 1));
        assert(y@.skip(i as int).drop_first() =~= y@.skip(i + 1));
        assert(x@.skip(i as int)[0] == x@[i as int]);
        assert(y@.skip(i as int)[0] == y@[i as int]);
        if x[i] != y[i] {
            return x[i] < y[i];
        }
        i += 1;
    }
    i < y.len()
}

/// The position of the least of the addresses that lie above the cursor.
pub fn find_least_above(addresses: &Vec<&String>, cursor: Option<&String>) -> (r: Option<usize>)
    ensures
        match r {
            Some(i) => least_above(
                views(addresses@),
                match cursor {
                    Some(c) => Some(c@),
                    None => None,
                },
            ) == Some(i as int) && i < addresses@.len(),
            None => least_above(
                views(addresses@),
                match cursor {
                    Some(c) => Some(c@),
                    None => None,
                },
            ) is None,
        },
{
    let ghost all = views(addresses@);
    let ghost above = match cursor {
        Some(c) => Some(c@),
        None => None,
    };
    let mut best: Option<usize> = None;
    let mut k: usize = 0;
    assert(all.take(0) =~= Seq::empty());
    while k < addresses.len()
        invariant
            k <= addresses@.len(),
            all == views(addresses@),
            above == match cursor {
                Some(c) => Some(c@),
                None => None,
            },
            match best {
                Some(i) => i < k && least_above(all.take(k as int), above) == Some(i as int),
                None => least_above(all.take(k as int), above) is None,
            },
        decreases addresses@.len() - k,
    {
        assert(all.take(k + 1).drop_last() =~= all.take(k as int));
        assert(all.take(k + 1)[k as int] == addresses@[k as int]@);
        let candidate = addresses[k];
        let fits = match cursor {
            Some(c) => address_precedes(c, candidate),
            None => true,
        };
        if fits {
            match best {
                Some(i) => {
                    assert(all.take(k + 1)[i as int] == addresses@[i as int]@);
                    if address_precedes(candidate, addresses[i]) {
                        best = Some(k);
                    }
                },
                None => {
                    best = Some(k);
                },
            }
        }
        k += 1;
    }
    assert(all.take(k as int) =~= all);
    best
}

/// The positions of the first `limit` addresses above the cursor, in rising
/// order of address.
pub fn rising(addresses: &Vec<&String>, cursor: Option<&String>, limit: usize) -> (r: Vec<usize>)
    ensures
        r@.len() == rising_from(
            views(addresses@),
            match cursor {
                Some(c) => Some(c@),
                None => None,
            },
            limit as nat,
        ).len(),
        forall|k: int|
            0 <= k < r@.len() ==> (#[trigger] r@[k]) < addresses@.len() && r@[k] == rising_from(
                views(addresses@),
                match cursor {
                    Some(c) => Some(c@),
                    None => None,
                },
                limit as nat,
            )[k],
{
    let ghost all = views(addresses@);
    let ghost start = match cursor {
        Some(c) => Some(c@),
        None => None,
    };
    let mut found: Vec<usize> = Vec::new();
    let mut above: Option<&String> = cursor;
    let mut left = limit;
    while left > 0
        invariant
            all == views(addresses@),
            start == match cursor {
                Some(c) => Some(c@),
                None => None,
            },
            left <= limit,
            rising_from(all, start, limit as nat) == Seq::new(found@.len(), |k: int| found@[k] as int)
                + rising_from(
                all,
                match above {
                    Some(c) => Some(c@),
                    None => None,
                },
                left as nat,
            ),
            forall|k: int| 0 <= k < found@.len() ==> (#[trigger] found@[k]) < addresses@.len(),
        decreases left,
    {
        let ghost so_far = Seq::new(found@.len(), |k: int| found@[k] as int);
        let ghost from = match above {
            Some(c) => Some(c@),
            None => None,
        };
        match find_least_above(addresses, above) {
            None => {
                assert(rising_from(all, from, left as nat) =~= Seq::empty());
                assert(rising_from(all, start, limit as nat) =~= so_far);
                return found;
            },
            Some(i) => {
                found.push(i);
                above = Some(addresses[i]);
                left -= 1;
                assert(all[i as int] == addresses@[i as int]@);
                assert(Seq::new(found@.len(), |k: int| found@[k] as int) =~= so_far + seq![
                    i as int,
                ]);
                assert(rising_from(all, start, limit as nat) =~= (so_far + seq![i as int])
                    + rising_from(all, Some(all[i as int]), left as nat));
            },
        }
    }
    assert(rising_from(
        all,
        match above {
            Some(c) => Some(c@),
            None => None,
        },
        0,
    ) =~= Seq::empty());
    assert(rising_from(all, start, limit as nat) =~= Seq::new(
        found@.len(),
        |k: int| found@[k] as int,
    ));
    found
}

/// No run of bytes comes before itself.
pub proof fn lemma_bytes_irreflexive(a: Seq<u8>)
    ensures
        !bytes_precede(a, a),
    decreases a.len(),
{
    if a.len() > 0 {
        lemma_bytes_irreflexive(a.drop_first());
    }
}

/// What comes before something that comes before a third comes before the
/// third.
pub proof fn lemma_bytes_transitive(a: Seq<u8>, b: Seq<u8>, c: Seq<u8>)
    requires
        bytes_precede(a, b),
        bytes_precede(b, c),
    ensures
        bytes_precede(a, c),
    decreases a.len(),
{
    if a.len() > 0 && a[0] == b[0] && b[0] == c[0] {
        lemma_bytes_transitive(a.drop_first(), b.drop_first(), c.drop_first());
    }
}

/// Of two runs of bytes that differ, one comes before the other.
pub proof fn lemma_bytes_total(a: Seq<u8>, b: Seq<u8>)
    ensures
        a == b || bytes_precede(a, b) || bytes_precede(b, a),
    decreases a.len(),
{
    if a.len() > 0 && b.len() > 0 && a[0] == b[0] {
        lemma_bytes_total(a.drop_first(), b.drop_first());
        if a.drop_first() == b.drop_first() {
            assert(a =~= seq![a[0]] + a.drop_first());
            assert(b =~= seq![b[0]] + b.drop_first());
        }
    } else if a.len() == 0 && b.len() == 0 {
        assert(a =~= b);
    }
}

/// The order of addresses is strict and total.
pub proof fn lemma_order(a: Seq<char>, b: Seq<char>, c: Seq<char>)
    ensures
        !precedes(a, a),
        precedes(a, b) && precedes(b, c) ==> precedes(a, c),
        a == b || precedes(a, b) || precedes(b, a),
        !(precedes(a, b) && precedes(b, a)),
{
    lemma_bytes_irreflexive(encode_utf8(a));
    if precedes(a, b) && precedes(b, c) {
        lemma_bytes_transitive(encode_utf8(a), encode_utf8(b), encode_utf8(c));
    }
    if precedes(a, b) && precedes(b, a) {
        lemma_bytes_transitive(encode_utf8(a), encode_utf8(b), encode_utf8(a));
    }
    lemma_bytes_total(encode_utf8(a), encode_utf8(b));
    if encode_utf8(a) == encode_utf8(b) {
        vstd::utf8::encode_utf8_decode_utf8(a);
        vstd::utf8::encode_utf8_decode_utf8(b);
    }
}

/// What `least_above` finds lies above the cursor, and no address above the
/// cursor comes before it; it finds one wherever there is one.
pub proof fn lemma_least_above(addresses: Seq<Seq<char>>, cursor: Option<Seq<char>>)
    ensures
        match least_above(addresses, cursor) {
            Some(i) => {
                &&& 0 <= i < addresses.len()
                &&& is_above(cursor, addresses[i])
                &&& forall|j: int|
                    0 <= j < addresses.len() && is_above(cursor, #[trigger] addresses[j])
                        ==> !precedes(addresses[j], addresses[i])
            },
            None => forall|j: int|
                0 <= j < addresses.len() ==> !is_above(cursor, #[trigger] addresses[j]),
        },
    decreases addresses.len(),
{
    if addresses.len() > 0 {
        let front = addresses.drop_last();
        let last = addresses.len() - 1;
        lemma_least_above(front, cursor);
        assert(forall|j: int| 0 <= j < front.len() ==> front[j] == addresses[j]);
        match least_above(addresses, cursor) {
            Some(i) => {
                assert forall|j: int|
                    0 <= j < addresses.len() && is_above(
                        cursor,
                        #[trigger] addresses[j],
                    ) implies !precedes(addresses[j], addresses[i]) by {
                    lemma_order(addresses[j], addresses[i], addresses[i]);
                    if j < last {
                        assert(front[j] == addresses[j]);
                        match least_above(front, cursor) {
                            Some(f) => {
                                assert(front[f] == addresses[f]);
                                lemma_order(addresses[j], addresses[i], addresses[f]);
                            },
                            None => {},
                        }
                    } else {
                        match least_above(front, cursor) {
                            Some(f) => {
                                assert(front[f] == addresses[f]);
                            },
                            None => {},
                        }
                    }
                }
            },
            None => {
                assert forall|j: int| 0 <= j < addresses.len() implies !is_above(
                    cursor,
                    #[trigger] addresses[j],
                ) by {
                    if j < last {
                        assert(front[j] == addresses[j]);
                    }
                }
            },
        }
    }
}

/// The page of addresses is what a store keyed by address would hand out:
/// no more than the limit; every place a place of the list; every address
/// above the cursor; the addresses in strictly rising order; and no address
/// above the cursor left out, unless the page is full and the address comes
/// after its last.
pub proof fn law_rising_page(addresses: Seq<Seq<char>>, cursor: Option<Seq<char>>, limit: nat)
    ensures
        ({
            let page = rising_from(addresses, cursor, limit);
            &&& page.len() <= limit
            &&& forall|k: int|
                0 <= k < page.len() ==> 0 <= (#[trigger] page[k]) < addresses.len() && is_above(
                    cursor,
                    addresses[page[k]],
                )
            &&& forall|a: int, b: int|
                0 <= a < b < page.len() ==> precedes(
                    addresses[#[trigger] page[a]],
                    addresses[#[trigger] page[b]],
                )
            &&& forall|j: int|
                0 <= j < addresses.len() && is_above(cursor, #[trigger] addresses[j]) ==> {
                    ||| exists|k: int| 0 <= k < page.len() && addresses[#[trigger] page[k]]
                        == addresses[j]
                    ||| page.len() == limit && limit > 0 && precedes(
                        addresses[page.last()],
                        addresses[j],
                    )
                    ||| limit == 0
                }
        }),
    decreases limit,
{
    let page = rising_from(addresses, cursor, limit);
    if limit > 0 {
        lemma_least_above(addresses, cursor);
        match least_above(addresses, cursor) {
            None => {},
            Some(i) => {
                let next = Some(addresses[i]);
                let rest = rising_from(addresses, next, (limit - 1) as nat);
                law_rising_page(addresses, next, (limit - 1) as nat);
                assert(page =~= seq![i] + rest);
                assert(page[0] == i);
                assert forall|k: int| 0 <= k < page.len() implies 0 <= (#[trigger] page[k])
                    < addresses.len() && is_above(cursor, addresses[page[k]]) by {
                    if k > 0 {
                        assert(page[k] == rest[k - 1]);
                        if cursor is Some {
                            lemma_order(cursor->Some_0, addresses[i], addresses[rest[k - 1]]);
                        }
                    }
                }
                assert forall|a: int, b: int| 0 <= a < b < page.len() implies precedes(
                    addresses[#[trigger] page[a]],
                    addresses[#[trigger] page[b]],
                ) by {
                    assert(page[b] == rest[b - 1]);
                    if a > 0 {
                        assert(page[a] == rest[a - 1]);
                    }
                }
                assert forall|j: int|
                    0 <= j < addresses.len() && is_above(
                        cursor,
                        #[trigger] addresses[j],
                    ) implies {
                    ||| exists|k: int| 0 <= k < page.len() && addresses[#[trigger] page[k]]
                        == addresses[j]
                    ||| page.len() == limit && limit > 0 && precedes(
                        addresses[page.last()],
                        addresses[j],
                    )
                    ||| limit == 0
                } by {
                    lemma_order(addresses[i], addresses[j], addresses[j]);
                    if addresses[j] == addresses[i] {
                        assert(addresses[page[0]] == addresses[j]);
                    } else {
                        assert(is_above(next, addresses[j]));
                        if limit - 1 == 0 {
                            assert(rest.len() == 0);
                            assert(page.last() == i);
                        } else if exists|k: int|
                            0 <= k < rest.len() && addresses[#[trigger] rest[k]] == addresses[j] {
                            let k = choose|k: int|
                                0 <= k < rest.len() && addresses[#[trigger] rest[k]]
                                    == addresses[j];
                            assert(page[k + 1] == rest[k]);
                            assert(addresses[page[k + 1]] == addresses[j]);
                        } else {
                            assert(page.last() == rest.last());
                        }
                    }
                }
            },
        }
    }
}

} // verus!
