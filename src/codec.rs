//! The cache file format. Every integer is eight bytes, least significant
//! first. A string is its UTF-8 byte length followed by those bytes. An entry
//! is its identifier followed by its nine names (scientific name, then the
//! ranks from species up to superkingdom). A file is the number of entries,
//! the entries, the number of merged-identifier links, and the links as
//! (old identifier, current identifier) pairs, with nothing after them.
use vstd::prelude::*;
use vstd::string::StringSliceAdditionalSpecFns;
use vstd::utf8::{decode_utf8, encode_utf8, valid_utf8};

use crate::entry::{TaxonEntry, TaxonEntryView};

verus! {

broadcast use vstd::string::group_string_axioms;

pub open spec fn le_bytes(n: u64) -> Seq<u8> {
    seq![
        n as u8,
        (n >> 8u64) as u8,
        (n >> 16u64) as u8,
        (n >> 24u64) as u8,
        (n >> 32u64) as u8,
        (n >> 40u64) as u8,
        (n >> 48u64) as u8,
        (n >> 56u64) as u8,
    ]
}

pub open spec fn u64_of_le(b0: u8, b1: u8, b2: u8, b3: u8, b4: u8, b5: u8, b6: u8, b7: u8) -> u64 {
    (b0 as u64) | ((b1 as u64) << 8u64) | ((b2 as u64) << 16u64) | ((b3 as u64) << 24u64) | ((
    b4 as u64) << 32u64) | ((b5 as u64) << 40u64) | ((b6 as u64) << 48u64) | ((b7 as u64)
        << 56u64)
}

pub open spec fn enc_str(s: Seq<char>) -> Seq<u8> {
    le_bytes(encode_utf8(s).len() as u64) + encode_utf8(s)
}

/// The nine names of an entry, in the order in which they are stored.
pub open spec fn names_of(e: TaxonEntryView) -> Seq<Seq<char>> {
    seq![
        e.name,
        e.species,
        e.genus,
        e.family,
        e.order,
        e.class,
        e.phylum,
        e.kingdom,
        e.superkingdom,
    ]
}

pub open spec fn entry_of(tax_id: i64, n: Seq<Seq<char>>) -> TaxonEntryView {
    TaxonEntryView {
        tax_id,
        name: n[0],
        species: n[1],
        genus: n[2],
        family: n[3],
        order: n[4],
        class: n[5],
        phylum: n[6],
        kingdom: n[7],
        superkingdom: n[8],
    }
}

pub open spec fn enc_list<T>(s: Seq<T>, item: spec_fn(T) -> Seq<u8>) -> Seq<u8>
    decreases s.len(),
{
    if s.len() == 0 {
        Seq::empty()
    } else {
        enc_list(s.drop_last(), item) + item(s.last())
    }
}

pub open spec fn str_writer() -> spec_fn(Seq<char>) -> Seq<u8> {
    |s: Seq<char>| enc_str(s)
}

pub open spec fn entry_writer() -> spec_fn(TaxonEntryView) -> Seq<u8> {
    |e: TaxonEntryView| enc_entry(e)
}

pub open spec fn link_writer() -> spec_fn((i64, i64)) -> Seq<u8> {
    |l: (i64, i64)| enc_link(l)
}

pub open spec fn str_reader() -> spec_fn(Seq<u8>, int) -> Option<(Seq<char>, int)> {
    |b: Seq<u8>, p: int| dec_str(b, p)
}

pub open spec fn entry_reader() -> spec_fn(Seq<u8>, int) -> Option<(TaxonEntryView, int)> {
    |b: Seq<u8>, p: int| dec_entry(b, p)
}

pub open spec fn link_reader() -> spec_fn(Seq<u8>, int) -> Option<((i64, i64), int)> {
    |b: Seq<u8>, p: int| dec_link(b, p)
}

pub open spec fn enc_entry(e: TaxonEntryView) -> Seq<u8> {
    le_bytes(e.tax_id as u64) + enc_list(names_of(e), str_writer())
}

pub open spec fn enc_link(l: (i64, i64)) -> Seq<u8> {
    le_bytes(l.0 as u64) + le_bytes(l.1 as u64)
}

/// The bytes of a cache file holding `entries` and `links`.
pub open spec fn encode_cache(entries: Seq<TaxonEntryView>, links: Seq<(i64, i64)>) -> Seq<u8> {
    le_bytes(entries.len() as u64) + enc_list(entries, entry_writer())
        + le_bytes(links.len() as u64) + enc_list(links, link_writer())
}

/// Whether every length that the file format records fits in its eight bytes.
pub open spec fn fits(entries: Seq<TaxonEntryView>, links: Seq<(i64, i64)>) -> bool {
    &&& entries.len() < 0x1_0000_0000_0000_0000
    &&& links.len() < 0x1_0000_0000_0000_0000
    &&& names_fit(entries)
}

/// Whether the UTF-8 encoding of every name of every entry has a length that
/// fits in eight bytes.
#[verifier::opaque]
pub open spec fn names_fit(entries: Seq<TaxonEntryView>) -> bool {
    forall|i: int, k: int|
        0 <= i < entries.len() && 0 <= k < 9 ==> encode_utf8(
            #[trigger] names_of(entries[i])[k],
        ).len() < 0x1_0000_0000_0000_0000
}

// Decoding: each reader takes the bytes and a position, and gives the value
// read and the position after it.
pub open spec fn dec_u64(b: Seq<u8>, p: int) -> Option<(u64, int)> {
    if 0 <= p && p + 8 <= b.len() {
        Some(
            (
                u64_of_le(b[p], b[p + 1], b[p + 2], b[p + 3], b[p + 4], b[p + 5], b[p + 6], b[p + 7]),
                p + 8,
            ),
        )
    } else {
        None
    }
}

pub open spec fn dec_str(b: Seq<u8>, p: int) -> Option<(Seq<char>, int)> {
    match dec_u64(b, p) {
        Some((n, q)) => if q + n <= b.len() && valid_utf8(b.subrange(q, q + n)) {
            Some((decode_utf8(b.subrange(q, q + n)), q + n))
        } else {
            None
        },
        None => None,
    }
}

pub open spec fn dec_list<T>(
    b: Seq<u8>,
    p: int,
    n: nat,
    item: spec_fn(Seq<u8>, int) -> Option<(T, int)>,
) -> Option<(Seq<T>, int)>
    decreases n,
{
    if n == 0 {
        Some((Seq::empty(), p))
    } else {
        match dec_list(b, p, (n - 1) as nat, item) {
            Some((s, q)) => match item(b, q) {
                Some((x, r)) => Some((s.push(x), r)),
                None => None,
            },
            None => None,
        }
    }
}

pub open spec fn dec_entry(b: Seq<u8>, p: int) -> Option<(TaxonEntryView, int)> {
    match dec_u64(b, p) {
        Some((id, q)) => match dec_list(b, q, 9, str_reader()) {
            Some((names, r)) => Some((entry_of(id as i64, names), r)),
            None => None,
        },
        None => None,
    }
}

pub open spec fn dec_link(b: Seq<u8>, p: int) -> Option<((i64, i64), int)> {
    match dec_u64(b, p) {
        Some((a, q)) => match dec_u64(b, q) {
            Some((c, r)) => Some(((a as i64, c as i64), r)),
            None => None,
        },
        None => None,
    }
}

/// The entries and links that a cache file holds, if it is well formed.
pub open spec fn decode_cache(b: Seq<u8>) -> Option<(Seq<TaxonEntryView>, Seq<(i64, i64)>)> {
    match dec_u64(b, 0) {
        Some((n, p)) => match dec_list(b, p, n as nat, entry_reader()) {
            Some((entries, q)) => match dec_u64(b, q) {
                Some((m, r)) => match dec_list(b, r, m as nat, link_reader()) {
                    Some((links, end)) => if end == b.len() {
                        Some((entries, links))
                    } else {
                        None
                    },
                    None => None,
                },
                None => None,
            },
            None => None,
        },
        None => None,
    }
}

proof fn lemma_le_bytes_inverse(n: u64)
    ensures
        u64_of_le(
            n as u8,
            (n >> 8u64) as u8,
            (n >> 16u64) as u8,
            (n >> 24u64) as u8,
            (n >> 32u64) as u8,
            (n >> 40u64) as u8,
            (n >> 48u64) as u8,
            (n >> 56u64) as u8,
        ) == n,
{
    assert((n as u8 as u64) | (((n >> 8u64) as u8 as u64) << 8u64) | (((n >> 16u64) as u8 as u64)
        << 16u64) | (((n >> 24u64) as u8 as u64) << 24u64) | (((n >> 32u64) as u8 as u64) << 32u64)
        | (((n >> 40u64) as u8 as u64) << 40u64) | (((n >> 48u64) as u8 as u64) << 48u64) | (((n
        >> 56u64) as u8 as u64) << 56u64) == n) by (bit_vector);
}

proof fn lemma_i64_u64_inverse(x: i64)
    ensures
        (x as u64) as i64 == x,
{
    assert((x as u64) as i64 == x) by (bit_vector);
}

proof fn lemma_split(b: Seq<u8>, p: int, x: Seq<u8>, y: Seq<u8>)
    requires
        0 <= p,
        p + x.len() + y.len() <= b.len(),
        b.subrange(p, p + (x + y).len()) == x + y,
    ensures
        b.subrange(p, p + x.len()) == x,
        b.subrange(p + x.len(), p + x.len() + y.len()) == y,
{
    assert(b.subrange(p, p + x.len()) =~= (x + y).subrange(0, x.len() as int));
    assert((x + y).subrange(0, x.len() as int) =~= x);
    assert(b.subrange(p + x.len(), p + x.len() + y.len()) =~= (x + y).subrange(
        x.len() as int,
        (x + y).len() as int,
    ));
    assert((x + y).subrange(x.len() as int, (x + y).len() as int) =~= y);
}

proof fn lemma_dec_u64_at(b: Seq<u8>, p: int, n: u64)
    requires
        0 <= p,
        p + 8 <= b.len(),
        b.subrange(p, p + 8) == le_bytes(n),
    ensures
        dec_u64(b, p) == Some((n, p + 8)),
{
    let w = b.subrange(p, p + 8);
    assert(b[p] == w[0] && b[p + 1] == w[1] && b[p + 2] == w[2] && b[p + 3] == w[3]);
    assert(b[p + 4] == w[4] && b[p + 5] == w[5] && b[p + 6] == w[6] && b[p + 7] == w[7]);
    lemma_le_bytes_inverse(n);
}

proof fn lemma_dec_str_at(b: Seq<u8>, p: int, s: Seq<char>)
    requires
        0 <= p,
        p + enc_str(s).len() <= b.len(),
        b.subrange(p, p + enc_str(s).len()) == enc_str(s),
        encode_utf8(s).len() < 0x1_0000_0000_0000_0000,
    ensures
        dec_str(b, p) == Some((s, p + enc_str(s).len())),
{
    let u = encode_utf8(s);
    lemma_split(b, p, le_bytes(u.len() as u64), u);
    lemma_dec_u64_at(b, p, u.len() as u64);
    vstd::utf8::encode_utf8_valid_utf8(s);
    vstd::utf8::encode_utf8_decode_utf8(s);
}

proof fn lemma_dec_list_at<T>(
    b: Seq<u8>,
    p: int,
    s: Seq<T>,
    enc: spec_fn(T) -> Seq<u8>,
    dec: spec_fn(Seq<u8>, int) -> Option<(T, int)>,
)
    requires
        0 <= p,
        p + enc_list(s, enc).len() <= b.len(),
        b.subrange(p, p + enc_list(s, enc).len()) == enc_list(s, enc),
        forall|i: int, q: int|
            #![trigger dec(b, q), s[i]]
            0 <= i < s.len() && 0 <= q && q + enc(s[i]).len() <= b.len() && b.subrange(
                q,
                q + enc(s[i]).len(),
            ) == enc(s[i]) ==> dec(b, q) == Some((s[i], q + enc(s[i]).len())),
    ensures
        dec_list(b, p, s.len(), dec) == Some((s, p + enc_list(s, enc).len())),
    decreases s.len(),
{
    if s.len() > 0 {
        let init = s.drop_last();
        let x = s.last();
        lemma_split(b, p, enc_list(init, enc), enc(x));
        assert forall|i: int, q: int|
            #![trigger dec(b, q), init[i]]
            0 <= i < init.len() && 0 <= q && q + enc(init[i]).len() <= b.len() && b.subrange(
                q,
                q + enc(init[i]).len(),
            ) == enc(init[i]) implies dec(b, q) == Some(
            (init[i], q + enc(init[i]).len()),
        ) by {
            assert(init[i] == s[i]);
        }
        lemma_dec_list_at(b, p, init, enc, dec);
        let q = p + enc_list(init, enc).len();
        assert(dec(b, q) == Some((s[s.len() - 1], q + enc(x).len())));
        assert(init.push(x) =~= s);
    } else {
        assert(s =~= Seq::<T>::empty());
    }
}

proof fn lemma_dec_entry_at(b: Seq<u8>, p: int, e: TaxonEntryView)
    requires
        0 <= p,
        p + enc_entry(e).len() <= b.len(),
        b.subrange(p, p + enc_entry(e).len()) == enc_entry(e),
        forall|k: int| 0 <= k < 9 ==> encode_utf8(#[trigger] names_of(e)[k]).len() < 0x1_0000_0000_0000_0000,
    ensures
        dec_entry(b, p) == Some((e, p + enc_entry(e).len())),
{
    let enc = str_writer();
    let dec = str_reader();
    let names = names_of(e);
    lemma_split(b, p, le_bytes(e.tax_id as u64), enc_list(names, enc));
    lemma_dec_u64_at(b, p, e.tax_id as u64);
    assert forall|i: int, q: int|
        #![trigger dec(b, q), names[i]]
        0 <= i < names.len() && 0 <= q && q + enc(names[i]).len() <= b.len() && b.subrange(
            q,
            q + enc(names[i]).len(),
        ) == enc(names[i]) implies dec(b, q) == Some((names[i], q + enc(names[i]).len())) by {
        lemma_dec_str_at(b, q, names[i]);
    }
    lemma_dec_list_at(b, p + 8, names, enc, dec);
    lemma_i64_u64_inverse(e.tax_id);
    assert(entry_of(e.tax_id, names) == e);
}

proof fn lemma_dec_link_at(b: Seq<u8>, p: int, l: (i64, i64))
    requires
        0 <= p,
        p + enc_link(l).len() <= b.len(),
        b.subrange(p, p + enc_link(l).len()) == enc_link(l),
    ensures
        dec_link(b, p) == Some((l, p + enc_link(l).len())),
{
    lemma_split(b, p, le_bytes(l.0 as u64), le_bytes(l.1 as u64));
    lemma_dec_u64_at(b, p, l.0 as u64);
    lemma_dec_u64_at(b, p + 8, l.1 as u64);
    lemma_i64_u64_inverse(l.0);
    lemma_i64_u64_inverse(l.1);
}

proof fn lemma_dec_entries_at(b: Seq<u8>, p: int, entries: Seq<TaxonEntryView>)
    requires
        0 <= p,
        p + enc_list(entries, entry_writer()).len() <= b.len(),
        b.subrange(p, p + enc_list(entries, entry_writer()).len()) == enc_list(
            entries,
            entry_writer(),
        ),
        names_fit(entries),
    ensures
        dec_list(b, p, entries.len(), entry_reader()) == Some(
            (entries, p + enc_list(entries, entry_writer()).len()),
        ),
{
    let ee = entry_writer();
    let de = entry_reader();
    reveal(names_fit);
    assert forall|i: int, q: int|
        #![trigger de(b, q), entries[i]]
        0 <= i < entries.len() && 0 <= q && q + ee(entries[i]).len() <= b.len() && b.subrange(
            q,
            q + ee(entries[i]).len(),
        ) == ee(entries[i]) implies de(b, q) == Some((entries[i], q + ee(entries[i]).len())) by {
        assert forall|k: int| 0 <= k < 9 implies encode_utf8(
            #[trigger] names_of(entries[i])[k],
        ).len() < 0x1_0000_0000_0000_0000 by {
            assert(encode_utf8(names_of(entries[i])[k]).len() < 0x1_0000_0000_0000_0000);
        }
        lemma_dec_entry_at(b, q, entries[i]);
    }
    lemma_dec_list_at(b, p, entries, ee, de);
}

proof fn lemma_dec_links_at(b: Seq<u8>, p: int, links: Seq<(i64, i64)>)
    requires
        0 <= p,
        p + enc_list(links, link_writer()).len() <= b.len(),
        b.subrange(p, p + enc_list(links, link_writer()).len()) == enc_list(
            links,
            link_writer(),
        ),
    ensures
        dec_list(b, p, links.len(), link_reader()) == Some(
            (links, p + enc_list(links, link_writer()).len()),
        ),
{
    let el = link_writer();
    let dl = link_reader();
    assert forall|i: int, r: int|
        #![trigger dl(b, r), links[i]]
        0 <= i < links.len() && 0 <= r && r + el(links[i]).len() <= b.len() && b.subrange(
            r,
            r + el(links[i]).len(),
        ) == el(links[i]) implies dl(b, r) == Some((links[i], r + el(links[i]).len())) by {
        lemma_dec_link_at(b, r, links[i]);
    }
    lemma_dec_list_at(b, p, links, el, dl);
}

proof fn lemma_layout(h1: Seq<u8>, body1: Seq<u8>, h2: Seq<u8>, body2: Seq<u8>)
    ensures
        ({
            let b = h1 + body1 + h2 + body2;
            let q = h1.len() + body1.len() as int;
            &&& b.subrange(0, h1.len() as int) == h1
            &&& b.subrange(h1.len() as int, q) == body1
            &&& b.subrange(q, q + h2.len() as int) == h2
            &&& b.subrange(q + h2.len() as int, b.len() as int) == body2
        }),
{
    let b = h1 + body1 + h2 + body2;
    let q = h1.len() + body1.len() as int;
    assert(b.subrange(0, h1.len() as int) =~= h1);
    assert(b.subrange(h1.len() as int, q) =~= body1);
    assert(b.subrange(q, q + h2.len() as int) =~= h2);
    assert(b.subrange(q + h2.len() as int, b.len() as int) =~= body2);
}

/// Decoding the encoding of any entries and links whose lengths fit the
/// format gives back exactly those entries and links.
#[verifier::spinoff_prover]
pub proof fn lemma_decode_encode(entries: Seq<TaxonEntryView>, links: Seq<(i64, i64)>)
    requires
        fits(entries, links),
    ensures
        decode_cache(encode_cache(entries, links)) == Some((entries, links)),
{
    let h1 = le_bytes(entries.len() as u64);
    let body1 = enc_list(entries, entry_writer());
    let h2 = le_bytes(links.len() as u64);
    let body2 = enc_list(links, link_writer());
    let b = h1 + body1 + h2 + body2;
    let q = 8 + body1.len() as int;
    assert(h1.len() == 8 && h2.len() == 8);
    assert(dec_u64(b, 0) == Some((entries.len() as u64, 8int))) by {
        lemma_layout(h1, body1, h2, body2);
        lemma_dec_u64_at(b, 0, entries.len() as u64);
    }
    assert(dec_list(b, 8, entries.len(), entry_reader()) == Some((entries, q))) by {
        lemma_layout(h1, body1, h2, body2);
        lemma_dec_entries_at(b, 8, entries);
    }
    assert(dec_u64(b, q) == Some((links.len() as u64, q + 8))) by {
        lemma_layout(h1, body1, h2, body2);
        lemma_dec_u64_at(b, q, links.len() as u64);
    }
    assert(dec_list(b, q + 8, links.len(), link_reader()) == Some((links, b.len() as int))) by {
        lemma_layout(h1, body1, h2, body2);
        lemma_dec_links_at(b, q + 8, links);
    }
    lemma_decode_cache_parts(b, entries, links, q);
}

proof fn lemma_decode_cache_parts(
    b: Seq<u8>,
    entries: Seq<TaxonEntryView>,
    links: Seq<(i64, i64)>,
    q: int,
)
    requires
        entries.len() < 0x1_0000_0000_0000_0000,
        links.len() < 0x1_0000_0000_0000_0000,
        dec_u64(b, 0) == Some((entries.len() as u64, 8int)),
        dec_list(b, 8, entries.len(), entry_reader()) == Some((entries, q)),
        dec_u64(b, q) == Some((links.len() as u64, q + 8)),
        dec_list(b, q + 8, links.len(), link_reader()) == Some(
            (links, b.len() as int),
        ),
    ensures
        decode_cache(b) == Some((entries, links)),
{
    assert((entries.len() as u64) as nat == entries.len());
    assert((links.len() as u64) as nat == links.len());
}
proof fn lemma_enc_list_push<T>(s: Seq<T>, x: T, enc: spec_fn(T) -> Seq<u8>)
    ensures
        enc_list(s.push(x), enc) == enc_list(s, enc) + enc(x),
{
    assert(s.push(x).drop_last() =~= s);
}

proof fn lemma_dec_list_stops<T>(
    b: Seq<u8>,
    p: int,
    i: nat,
    n: nat,
    item: spec_fn(Seq<u8>, int) -> Option<(T, int)>,
)
    requires
        i <= n,
        dec_list(b, p, i, item) is None,
    ensures
        dec_list(b, p, n, item) is None,
    decreases n - i,
{
    if i < n {
        lemma_dec_list_stops(b, p, i + 1, n, item);
    }
}

proof fn lemma_dec_list_len<T>(
    b: Seq<u8>,
    p: int,
    n: nat,
    item: spec_fn(Seq<u8>, int) -> Option<(T, int)>,
)
    ensures
        dec_list(b, p, n, item) is Some ==> dec_list(b, p, n, item)->Some_0.0.len() == n,
    decreases n,
{
    if n > 0 {
        lemma_dec_list_len(b, p, (n - 1) as nat, item);
    }
}

pub open spec fn views(v: Seq<TaxonEntry>) -> Seq<TaxonEntryView> {
    v.map_values(|e: TaxonEntry| e@)
}

pub open spec fn strings(v: Seq<String>) -> Seq<Seq<char>> {
    v.map_values(|s: String| s@)
}

/// Relies on std::str::from_utf8: it accepts exactly the well-formed UTF-8
/// byte sequences, and the string it gives holds the characters they encode.
#[verifier::external_body]
fn utf8_to_string(b: &[u8]) -> (r: Option<String>)
    ensures
        r is Some <==> valid_utf8(b@),
        r is Some ==> r->Some_0@ == decode_utf8(b@),
{
    match std::str::from_utf8(b) {
        Ok(s) => Some(s.to_string()),
        Err(_) => None,
    }
}

fn put_u64(out: &mut Vec<u8>, n: u64)
    ensures
        final(out)@ == old(out)@ + le_bytes(n),
{
    out.push(n as u8);
    out.push((n >> 8u64) as u8);
    out.push((n >> 16u64) as u8);
    out.push((n >> 24u64) as u8);
    out.push((n >> 32u64) as u8);
    out.push((n >> 40u64) as u8);
    out.push((n >> 48u64) as u8);
    out.push((n >> 56u64) as u8);
    assert(final(out)@ =~= old(out)@ + le_bytes(n));
}

fn put_str(out: &mut Vec<u8>, s: &String)
    ensures
        final(out)@ == old(out)@ + enc_str(s@),
        encode_utf8(s@).len() < 0x1_0000_0000_0000_0000,
{
    let x = s.as_str().as_bytes();
    put_u64(out, x.len() as u64);
    let ghost start = out@;
    let mut i: usize = 0;
    while i < x.len()
        invariant
            x@ == encode_utf8(s@),
            i <= x@.len(),
            out@ == start + x@.subrange(0, i as int),
        decreases x@.len() - i,
    {
        out.push(x[i]);
        assert(x@.subrange(0, i + 1) =~= x@.subrange(0, i as int).push(x@[i as int]));
        i = i + 1;
    }
    assert(x@.subrange(0, x@.len() as int) =~= x@);
}

fn name_at(e: &TaxonEntry, k: usize) -> (r: &String)
    requires
        k < 9,
    ensures
        r@ == names_of(e@)[k as int],
{
    match k {
        0 => &e.name,
        1 => &e.species,
        2 => &e.genus,
        3 => &e.family,
        4 => &e.order,
        5 => &e.class,
        6 => &e.phylum,
        7 => &e.kingdom,
        _ => &e.superkingdom,
    }
}

fn put_entry(out: &mut Vec<u8>, e: &TaxonEntry)
    ensures
        final(out)@ == old(out)@ + enc_entry(e@),
        forall|k: int| 0 <= k < 9 ==> encode_utf8(#[trigger] names_of(e@)[k]).len() < 0x1_0000_0000_0000_0000,
{
    let ghost names = names_of(e@);
    let ghost enc = str_writer();
    put_u64(out, #[verifier::truncate] (e.tax_id as u64));
    let ghost start = out@;
    let mut k: usize = 0;
    while k < 9
        invariant
            k <= 9,
            names == names_of(e@),
            enc == str_writer(),
            out@ == start + enc_list(names.take(k as int), enc),
            forall|j: int| 0 <= j < k ==> encode_utf8(#[trigger] names[j]).len() < 0x1_0000_0000_0000_0000,
        decreases 9 - k,
    {
        put_str(out, name_at(e, k));
        proof {
            lemma_enc_list_push(names.take(k as int), names[k as int], enc);
            assert(names.take(k + 1) =~= names.take(k as int).push(names[k as int]));
            assert(out@ =~= start + enc_list(names.take(k + 1), enc));
        }
        k = k + 1;
    }
    assert(names.take(9) =~= names);
}

fn put_link(out: &mut Vec<u8>, l: (i64, i64))
    ensures
        final(out)@ == old(out)@ + enc_link(l),
{
    put_u64(out, #[verifier::truncate] (l.0 as u64));
    put_u64(out, #[verifier::truncate] (l.1 as u64));
    assert(final(out)@ =~= old(out)@ + enc_link(l));
}

/// Appends the cache file that holds `entries` and `links` to `out`.
pub fn encode(entries: &Vec<TaxonEntry>, links: &Vec<(i64, i64)>, out: &mut Vec<u8>)
    ensures
        final(out)@ == old(out)@ + encode_cache(views(entries@), links@),
        fits(views(entries@), links@),
{
    let ghost es = views(entries@);
    let ghost ee = entry_writer();
    let ghost el = link_writer();
    put_u64(out, entries.len() as u64);
    let ghost after_count = out@;
    let mut i: usize = 0;
    while i < entries.len()
        invariant
            i <= entries@.len(),
            es == views(entries@),
            ee == entry_writer(),
            out@ == after_count + enc_list(es.take(i as int), ee),
            forall|j: int, k: int|
                0 <= j < i && 0 <= k < 9 ==> encode_utf8(
                    #[trigger] names_of(es[j])[k],
                ).len() < 0x1_0000_0000_0000_0000,
        decreases entries@.len() - i,
    {
        put_entry(out, &entries[i]);
        proof {
            lemma_enc_list_push(es.take(i as int), es[i as int], ee);
            assert(es.take(i + 1) =~= es.take(i as int).push(es[i as int]));
            assert(out@ =~= after_count + enc_list(es.take(i + 1), ee));
        }
        i = i + 1;
    }
    assert(es.take(es.len() as int) =~= es);
    put_u64(out, links.len() as u64);
    let ghost after_links_count = out@;
    let mut j: usize = 0;
    while j < links.len()
        invariant
            j <= links@.len(),
            el == link_writer(),
            out@ == after_links_count + enc_list(links@.take(j as int), el),
        decreases links@.len() - j,
    {
        put_link(out, links[j]);
        proof {
            lemma_enc_list_push(links@.take(j as int), links@[j as int], el);
            assert(links@.take(j + 1) =~= links@.take(j as int).push(links@[j as int]));
            assert(out@ =~= after_links_count + enc_list(links@.take(j + 1), el));
        }
        j = j + 1;
    }
    assert(links@.take(links@.len() as int) =~= links@);
    assert(final(out)@ =~= old(out)@ + encode_cache(es, links@));
    reveal(names_fit);
}

fn read_u64(b: &[u8], p: usize) -> (r: Option<(u64, usize)>)
    ensures
        match r {
            Some((n, q)) => dec_u64(b@, p as int) == Some((n, q as int)),
            None => dec_u64(b@, p as int) is None,
        },
{
    if b.len() < 8 || p > b.len() - 8 {
        return None;
    }
    let n: u64 = (b[p] as u64) | ((b[p + 1] as u64) << 8u64) | ((b[p + 2] as u64) << 16u64) | ((b[p
        + 3] as u64) << 24u64) | ((b[p + 4] as u64) << 32u64) | ((b[p + 5] as u64) << 40u64) | ((b[p
        + 6] as u64) << 48u64) | ((b[p + 7] as u64) << 56u64);
    Some((n, p + 8))
}

fn read_str(b: &[u8], p: usize) -> (r: Option<(String, usize)>)
    ensures
        match r {
            Some((s, q)) => dec_str(b@, p as int) == Some((s@, q as int)),
            None => dec_str(b@, p as int) is None,
        },
{
    let (n, q) = match read_u64(b, p) {
        Some(x) => x,
        None => return None,
    };
    if n > (b.len() - q) as u64 {
        return None;
    }
    let end = q + n as usize;
    match utf8_to_string(vstd::slice::slice_subrange(b, q, end)) {
        Some(s) => Some((s, end)),
        None => None,
    }
}

fn read_entry(b: &[u8], p: usize) -> (r: Option<(TaxonEntry, usize)>)
    ensures
        match r {
            Some((e, q)) => dec_entry(b@, p as int) == Some((e@, q as int)),
            None => dec_entry(b@, p as int) is None,
        },
{
    let ghost dec = str_reader();
    let (id, start) = match read_u64(b, p) {
        Some(x) => x,
        None => return None,
    };
    let mut names: Vec<String> = Vec::new();
    let mut pos = start;
    let mut k: u64 = 0;
    while k < 9
        invariant
            k <= 9,
            dec == str_reader(),
            dec_u64(b@, p as int) == Some((id, start as int)),
            dec_list(b@, start as int, k as nat, dec) == Some((strings(names@), pos as int)),
        decreases 9 - k,
    {
        match read_str(b, pos) {
            Some((s, q)) => {
                let ghost before = names@;
                names.push(s);
                pos = q;
                proof {
                    assert(strings(names@) =~= strings(before).push(s@));
                }
            },
            None => {
                proof {
                    lemma_dec_list_stops(b@, start as int, (k + 1) as nat, 9, dec);
                }
                return None;
            },
        }
        k = k + 1;
    }
    let ghost all = strings(names@);
    proof {
        lemma_dec_list_len(b@, start as int, 9, dec);
    }
    assert(names@.len() == 9);
    let superkingdom = names.pop().unwrap();
    let kingdom = names.pop().unwrap();
    let phylum = names.pop().unwrap();
    let class = names.pop().unwrap();
    let order = names.pop().unwrap();
    let family = names.pop().unwrap();
    let genus = names.pop().unwrap();
    let species = names.pop().unwrap();
    let name = names.pop().unwrap();
    let e = TaxonEntry {
        tax_id: #[verifier::truncate] (id as i64),
        name,
        species,
        genus,
        family,
        order,
        class,
        phylum,
        kingdom,
        superkingdom,
    };
    assert(e@ == entry_of(#[verifier::truncate] (id as i64), all));
    Some((e, pos))
}

fn read_link(b: &[u8], p: usize) -> (r: Option<((i64, i64), usize)>)
    ensures
        match r {
            Some((l, q)) => dec_link(b@, p as int) == Some((l, q as int)),
            None => dec_link(b@, p as int) is None,
        },
{
    let (a, q) = match read_u64(b, p) {
        Some(x) => x,
        None => return None,
    };
    let (c, end) = match read_u64(b, q) {
        Some(x) => x,
        None => return None,
    };
    Some(((#[verifier::truncate] (a as i64), #[verifier::truncate] (c as i64)), end))
}

/// Reads a cache file: its entries and links, or `None` where the bytes are
/// not a well-formed file.
pub fn decode(b: &[u8]) -> (r: Option<(Vec<TaxonEntry>, Vec<(i64, i64)>)>)
    ensures
        match r {
            Some((entries, links)) => decode_cache(b@) == Some((views(entries@), links@)),
            None => decode_cache(b@) is None,
        },
{
    let ghost de = entry_reader();
    let ghost dl = link_reader();
    let (n, start) = match read_u64(b, 0) {
        Some(x) => x,
        None => return None,
    };
    let mut entries: Vec<TaxonEntry> = Vec::new();
    let mut pos = start;
    let mut i: u64 = 0;
    while i < n
        invariant
            i <= n,
            de == entry_reader(),
            dec_u64(b@, 0) == Some((n, start as int)),
            dec_list(b@, start as int, i as nat, de) == Some((views(entries@), pos as int)),
        decreases n - i,
    {
        match read_entry(b, pos) {
            Some((e, q)) => {
                let ghost before = entries@;
                entries.push(e);
                pos = q;
                proof {
                    assert(views(entries@) =~= views(before).push(e@));
                }
            },
            None => {
                proof {
                    lemma_dec_list_stops(b@, start as int, (i + 1) as nat, n as nat, de);
                }
                return None;
            },
        }
        i = i + 1;
    }
    let (m, link_start) = match read_u64(b, pos) {
        Some(x) => x,
        None => return None,
    };
    let mut links: Vec<(i64, i64)> = Vec::new();
    let mut pos2 = link_start;
    let mut j: u64 = 0;
    while j < m
        invariant
            j <= m,
            dl == link_reader(),
            de == entry_reader(),
            dec_u64(b@, 0) == Some((n, start as int)),
            dec_list(b@, start as int, n as nat, de) == Some((views(entries@), pos as int)),
            dec_u64(b@, pos as int) == Some((m, link_start as int)),
            dec_list(b@, link_start as int, j as nat, dl) == Some((links@, pos2 as int)),
        decreases m - j,
    {
        match read_link(b, pos2) {
            Some((l, q)) => {
                links.push(l);
                pos2 = q;
            },
            None => {
                proof {
                    lemma_dec_list_stops(b@, link_start as int, (j + 1) as nat, m as nat, dl);
                }
                return None;
            },
        }
        j = j + 1;
    }
    if pos2 != b.len() {
        return None;
    }
    Some((entries, links))
}

} // verus!
