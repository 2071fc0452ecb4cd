use super::name::{
    join_dots, kept_text, label_wire, labels_wire, name_labels, name_text, name_wire, parse_name,
    split_dots, DOT,
};
use crate::error::Error;
use vstd::prelude::*;
use vstd::utf8::{
    decode_utf8, encode_utf8, encode_utf8_decode_utf8, encode_utf8_valid_utf8, is_ascii_chars,
    is_ascii_chars_encode_utf8, valid_utf8,
};

verus! {

/// Bytes read as characters, one each.
pub open spec fn chars_of(b: Seq<u8>) -> Seq<char> {
    b.map_values(|x: u8| x as char)
}

/// Byte parts joined with a dot byte between each two.
pub open spec fn join_bytes(ps: Seq<Seq<u8>>) -> Seq<u8>
    decreases ps.len(),
{
    if ps.len() == 0 {
        Seq::empty()
    } else if ps.len() == 1 {
        ps[0]
    } else {
        join_bytes(ps.drop_last()) + seq![DOT] + ps.last()
    }
}

/// Whether every byte of `b` is below 128.
pub open spec fn ascii_bytes(b: Seq<u8>) -> bool {
    forall|j: int| 0 <= j < b.len() ==> #[trigger] b[j] < 128
}

proof fn lemma_split_nonempty(b: Seq<u8>)
    ensures
        split_dots(b).len() >= 1,
    decreases b.len(),
{
    if b.len() > 0 {
        lemma_split_nonempty(b.drop_last());
    }
}

/// Joining the parts of a split with dots gives the bytes back.
proof fn lemma_join_split(b: Seq<u8>)
    ensures
        join_bytes(split_dots(b)) == b,
    decreases b.len(),
{
    if b.len() > 0 {
        let init = b.drop_last();
        let prev = split_dots(init);
        lemma_split_nonempty(init);
        lemma_join_split(init);
        assert(b =~= init.push(b.last()));
        if b.last() == DOT {
            let ps = prev.push(Seq::empty());
            assert(ps.drop_last() =~= prev);
            assert(join_bytes(ps) =~= join_bytes(prev) + seq![DOT]);
        } else {
            let ps = prev.update(prev.len() - 1, prev.last().push(b.last()));
            if prev.len() == 1 {
                assert(join_bytes(ps) =~= prev[0].push(b.last()));
            } else {
                assert(ps.drop_last() =~= prev.drop_last());
                assert(join_bytes(ps) =~= join_bytes(prev).push(b.last()));
            }
        }
    }
}

/// Every part of a split of ASCII bytes is ASCII.
proof fn lemma_split_ascii(b: Seq<u8>)
    requires
        ascii_bytes(b),
    ensures
        forall|i: int| 0 <= i < split_dots(b).len() ==> ascii_bytes(#[trigger] split_dots(b)[i]),
    decreases b.len(),
{
    if b.len() > 0 {
        let init = b.drop_last();
        let prev = split_dots(init);
        assert(ascii_bytes(init)) by {
            assert forall|j: int| 0 <= j < init.len() implies #[trigger] init[j] < 128 by {
                assert(init[j] == b[j]);
            }
        }
        lemma_split_nonempty(init);
        lemma_split_ascii(init);
        let ps = split_dots(b);
        assert(b.last() == b[b.len() - 1]);
        if b.last() != DOT {
            assert forall|i: int| 0 <= i < ps.len() implies ascii_bytes(#[trigger] ps[i]) by {
                if i == ps.len() - 1 {
                    let l = prev.last().push(b.last());
                    assert(ps[i] == l);
                    assert(ascii_bytes(prev[prev.len() - 1]));
                    assert forall|j: int| 0 <= j < l.len() implies #[trigger] l[j] < 128 by {
                        if j < l.len() - 1 {
                            assert(l[j] == prev[prev.len() - 1][j]);
                        }
                    }
                }
            }
        } else {
            assert forall|i: int| 0 <= i < ps.len() implies ascii_bytes(#[trigger] ps[i]) by {
                if i < ps.len() - 1 {
                    assert(ps[i] == prev[i]);
                }
            }
        }
    }
}

/// ASCII bytes are valid UTF-8 and decode to one character each.
proof fn lemma_ascii_decode(t: Seq<u8>)
    requires
        ascii_bytes(t),
    ensures
        valid_utf8(t),
        decode_utf8(t) == chars_of(t),
{
    let c = chars_of(t);
    assert(is_ascii_chars(c)) by {
        assert forall|i: int| 0 <= i < c.len() implies '\0' <= #[trigger] c[i] <= '\u{7f}' by {
            assert(t[i] < 128);
        }
    }
    is_ascii_chars_encode_utf8(c);
    assert forall|i: int| 0 <= i < t.len() implies #[trigger] encode_utf8(c)[i] == t[i] by {
        assert(c[i] as u8 == encode_utf8(c)[i]);
        assert(t[i] < 128);
    }
    assert(encode_utf8(c) =~= t);
    encode_utf8_valid_utf8(c);
    encode_utf8_decode_utf8(c);
}

/// When every label is ASCII, none is dropped and each reads as its bytes.
proof fn lemma_kept_all(ps: Seq<Seq<u8>>)
    requires
        forall|i: int| 0 <= i < ps.len() ==> ascii_bytes(#[trigger] ps[i]),
    ensures
        kept_text(ps) == ps.map_values(|p: Seq<u8>| chars_of(p)),
    decreases ps.len(),
{
    if ps.len() > 0 {
        lemma_kept_all(ps.drop_last());
        assert(ascii_bytes(ps[ps.len() - 1]));
        lemma_ascii_decode(ps.last());
        assert(kept_text(ps) =~= ps.map_values(|p: Seq<u8>| chars_of(p)));
    }
}

/// Reading bytes as characters commutes with joining them with dots.
proof fn lemma_join_chars(ps: Seq<Seq<u8>>)
    ensures
        join_dots(ps.map_values(|p: Seq<u8>| chars_of(p))) == chars_of(join_bytes(ps)),
    decreases ps.len(),
{
    let cs = ps.map_values(|p: Seq<u8>| chars_of(p));
    if ps.len() == 1 {
        assert(cs[0] == chars_of(ps[0]));
    } else if ps.len() > 1 {
        lemma_join_chars(ps.drop_last());
        assert(cs.drop_last() =~= ps.drop_last().map_values(|p: Seq<u8>| chars_of(p)));
        assert(chars_of(join_bytes(ps)) =~= chars_of(join_bytes(ps.drop_last())) + seq!['.']
            + chars_of(ps.last()));
    }
}

/// Labels on the wire, read from the front: the first label, then the rest.
proof fn lemma_labels_wire_front(ls: Seq<Seq<u8>>)
    requires
        ls.len() > 0,
    ensures
        labels_wire(ls) == label_wire(ls[0]) + labels_wire(ls.drop_first()),
    decreases ls.len(),
{
    if ls.len() == 1 {
        assert(ls.drop_first() =~= Seq::<Seq<u8>>::empty());
        assert(ls.drop_last() =~= Seq::<Seq<u8>>::empty());
        assert(labels_wire(ls.drop_last()) == Seq::<u8>::empty());
        assert(labels_wire(ls.drop_first()) == Seq::<u8>::empty());
        assert(labels_wire(ls) =~= label_wire(ls[0]));
    } else {
        lemma_labels_wire_front(ls.drop_last());
        assert(ls.drop_last().drop_first() =~= ls.drop_first().drop_last());
        assert(labels_wire(ls) =~= label_wire(ls[0]) + labels_wire(ls.drop_first()));
    }
}

/// Decoding the wire form of labels of one to sixty-three bytes, followed by
/// the zero byte, gives the labels back.
proof fn lemma_parse_labels(b: Seq<u8>, p: int, ls: Seq<Seq<u8>>)
    requires
        0 <= p,
        forall|i: int| 0 <= i < ls.len() ==> 1 <= (#[trigger] ls[i]).len() <= 63,
        p + labels_wire(ls).len() + 1 <= b.len(),
        b.subrange(p, p + labels_wire(ls).len() + 1) == labels_wire(ls) + seq![0u8],
    ensures
        name_labels(b, p) == Ok::<(Seq<Seq<u8>>, int), Error>(
            (ls, p + labels_wire(ls).len() + 1),
        ),
    decreases ls.len(),
{
    let w = labels_wire(ls) + seq![0u8];
    assert(b[p] == w[0]) by {
        assert(b.subrange(p, p + w.len())[0] == b[p]);
    }
    if ls.len() == 0 {
        assert(ls =~= Seq::<Seq<u8>>::empty());
    } else {
        lemma_labels_wire_front(ls);
        let l = ls[0];
        let rest = ls.drop_first();
        let n = l.len();
        assert(1 <= n <= 63);
        assert(w[0] == n as u8);
        let q = p + 1 + n;
        let wr = labels_wire(rest) + seq![0u8];
        assert(w =~= label_wire(l) + wr);
        assert(b.subrange(p + 1, q) =~= l) by {
            assert forall|j: int| 0 <= j < n implies #[trigger] b.subrange(p + 1, q)[j] == l[j] by {
                assert(b.subrange(p, p + w.len())[1 + j] == w[1 + j]);
            }
        }
        assert(b.subrange(q, q + wr.len()) =~= wr) by {
            assert forall|j: int| 0 <= j < wr.len() implies #[trigger] b.subrange(q, q + wr.len())[j]
                == wr[j] by {
                assert(b.subrange(p, p + w.len())[1 + n + j] == w[1 + n + j]);
            }
        }
        assert forall|i: int| 0 <= i < rest.len() implies 1 <= (#[trigger] rest[i]).len() <= 63 by {
            assert(rest[i] == ls[i + 1]);
        }
        lemma_parse_labels(b, q, rest);
        assert(seq![l] + rest =~= ls);
    }
}

/// A name of ASCII labels of one to sixty-three bytes each, joined by dots,
/// decodes back to itself from its own uncompressed wire form, wherever that
/// form stands in a buffer; decoding ends just after it.
pub proof fn lemma_name_round_trip(s: Seq<char>, pre: Seq<u8>, post: Seq<u8>)
    requires
        is_ascii_chars(s),
        forall|i: int|
            0 <= i < split_dots(encode_utf8(s)).len() ==> 1 <= (#[trigger] split_dots(
                encode_utf8(s),
            )[i]).len() <= 63,
    ensures
        parse_name(pre + name_wire(s) + post, pre.len() as int) == Ok::<(Seq<char>, int), Error>(
            (s, (pre.len() + name_wire(s).len()) as int),
        ),
{
    let bytes = encode_utf8(s);
    let parts = split_dots(bytes);
    let buf = pre + name_wire(s) + post;
    let p = pre.len() as int;
    is_ascii_chars_encode_utf8(s);
    assert(ascii_bytes(bytes)) by {
        assert forall|j: int| 0 <= j < bytes.len() implies #[trigger] bytes[j] < 128 by {
            assert(s[j] as u8 == bytes[j]);
        }
    }
    assert(buf.subrange(p, p + labels_wire(parts).len() + 1) =~= labels_wire(parts) + seq![0u8]);
    lemma_parse_labels(buf, p, parts);
    lemma_split_ascii(bytes);
    lemma_kept_all(parts);
    lemma_join_chars(parts);
    lemma_join_split(bytes);
    assert(chars_of(bytes) =~= s) by {
        assert forall|j: int| 0 <= j < s.len() implies #[trigger] chars_of(bytes)[j] == s[j] by {
            assert(s[j] as u8 == bytes[j]);
        }
    }
}

} // verus!
