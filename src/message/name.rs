use super::after;
use crate::error::Error;
use crate::utils::{read_1_byte, read_n_bytes, Cursor};
use vstd::prelude::*;
use vstd::string::StringExecFns;
use vstd::utf8::{decode_utf8, encode_utf8, valid_utf8};

verus! {

/// The byte that separates labels in dotted text.
pub const DOT: u8 = 0x2E;

/// A domain name in dotted text form.
#[derive(Debug)]
pub struct DomainName(pub String);

impl View for DomainName {
    type V = Seq<char>;

    open spec fn view(&self) -> Seq<char> {
        self.0@
    }
}

/// The parts of `b` between dots, as splitting a string on `.` gives them:
/// one more part than there are dots, empty parts included.
pub open spec fn split_dots(b: Seq<u8>) -> Seq<Seq<u8>>
    decreases b.len(),
{
    if b.len() == 0 {
        seq![Seq::empty()]
    } else {
        let prev = split_dots(b.drop_last());
        if b.last() == DOT {
            prev.push(Seq::empty())
        } else {
            prev.update(prev.len() - 1, prev.last().push(b.last()))
        }
    }
}

/// One label on the wire: its length byte, then its bytes.
pub open spec fn label_wire(l: Seq<u8>) -> Seq<u8> {
    seq![(l.len() % 256) as u8] + l
}

/// Labels on the wire, one after another.
pub open spec fn labels_wire(ls: Seq<Seq<u8>>) -> Seq<u8>
    decreases ls.len(),
{
    if ls.len() == 0 {
        Seq::empty()
    } else {
        labels_wire(ls.drop_last()) + label_wire(ls.last())
    }
}

/// The wire form of a dotted name, always written in full: each part of its
/// UTF-8 bytes between dots as a label, then the zero byte that ends the name.
pub open spec fn name_wire(s: Seq<char>) -> Seq<u8> {
    labels_wire(split_dots(encode_utf8(s))) + seq![0u8]
}

/// Whether a length byte is a compression pointer (top two bits set).
pub open spec fn is_pointer(x: u8) -> bool {
    x >= 0b1100_0000
}

/// The absolute offset that a pointer's two bytes name.
pub open spec fn pointer_offset(x: u8, y: u8) -> int {
    (x - 0b1100_0000) * 256 + y
}

/// Labels read from `p` up to a zero length byte, every length byte taken as a
/// plain length: what is read at the target of a pointer. Gives the labels and
/// the position after the zero byte. A label that reaches the end of the
/// buffer leaves no byte for the next length, so it is an error too.
pub open spec fn plain_labels(b: Seq<u8>, p: int) -> Result<(Seq<Seq<u8>>, int), Error>
    decreases b.len() - p,
{
    if p < 0 || p >= b.len() {
        Err(Error::UnexpectedEnd)
    } else {
        let n = b[p] as int;
        if n == 0 {
            Ok((Seq::empty(), p + 1))
        } else if p + 1 + n >= b.len() {
            Err(Error::UnexpectedEnd)
        } else {
            after(seq![b.subrange(p + 1, p + 1 + n)], plain_labels(b, p + 1 + n))
        }
    }
}

/// Labels of a name read from `p`: plain labels until a zero byte, or until a
/// pointer, whose target is read as plain labels (one level is followed).
/// A length byte whose top two bits are not both set is a plain length.
/// Gives the labels and the position after the name's own bytes.
pub open spec fn name_labels(b: Seq<u8>, p: int) -> Result<(Seq<Seq<u8>>, int), Error>
    decreases b.len() - p,
{
    if p < 0 || p >= b.len() {
        Err(Error::UnexpectedEnd)
    } else {
        let x = b[p];
        if x == 0 {
            Ok((Seq::empty(), p + 1))
        } else if is_pointer(x) {
            if p + 1 >= b.len() {
                Err(Error::UnexpectedEnd)
            } else {
                match plain_labels(b, pointer_offset(x, b[p + 1])) {
                    Ok((ls, _)) => Ok((ls, p + 2)),
                    Err(e) => Err(e),
                }
            }
        } else if p + 1 + x >= b.len() {
            Err(Error::UnexpectedEnd)
        } else {
            after(seq![b.subrange(p + 1, p + 1 + x)], name_labels(b, p + 1 + x))
        }
    }
}

/// The labels that are valid UTF-8, decoded; the others are dropped.
pub open spec fn kept_text(ls: Seq<Seq<u8>>) -> Seq<Seq<char>>
    decreases ls.len(),
{
    if ls.len() == 0 {
        Seq::empty()
    } else if valid_utf8(ls.last()) {
        kept_text(ls.drop_last()).push(decode_utf8(ls.last()))
    } else {
        kept_text(ls.drop_last())
    }
}

/// Parts joined with a dot between each two.
pub open spec fn join_dots(ps: Seq<Seq<char>>) -> Seq<char>
    decreases ps.len(),
{
    if ps.len() == 0 {
        Seq::empty()
    } else if ps.len() == 1 {
        ps[0]
    } else {
        join_dots(ps.drop_last()) + seq!['.'] + ps.last()
    }
}

/// The dotted text of decoded labels.
pub open spec fn name_text(ls: Seq<Seq<u8>>) -> Seq<char> {
    join_dots(kept_text(ls))
}

/// Decoding a name at `p` in `b`: its text and the position after it.
pub open spec fn parse_name(b: Seq<u8>, p: int) -> Result<(Seq<char>, int), Error> {
    match name_labels(b, p) {
        Ok((ls, q)) => Ok((name_text(ls), q)),
        Err(e) => Err(e),
    }
}

/// The bytes of each label read.
pub open spec fn labels_view(v: Seq<Vec<u8>>) -> Seq<Seq<u8>> {
    v.map_values(|t: Vec<u8>| t@)
}

/// Relies on `String::from_utf8`: it accepts exactly the byte sequences that
/// are valid UTF-8, and the string then holds the characters they encode.
#[verifier::external_body]
fn utf8_text(bytes: &Vec<u8>) -> (r: Option<String>)
    ensures
        r is Some <==> valid_utf8(bytes@),
        r is Some ==> r->0@ == decode_utf8(bytes@),
{
    String::from_utf8(bytes.clone()).ok()
}

impl Clone for DomainName {
    fn clone(&self) -> (r: Self)
        ensures
            r@ == self@,
    {
        DomainName(self.0.clone())
    }
}

impl DomainName {
    /// The wire bytes of this name, never compressed.
    pub fn as_bytes(&self) -> (r: Vec<u8>)
        ensures
            r@ == name_wire(self@),
    {
        let b = self.0.as_str().as_bytes();
        let mut out: Vec<u8> = Vec::new();
        let mut cur: Vec<u8> = Vec::new();
        let ghost mut done: Seq<Seq<u8>> = Seq::empty();
        let mut i: usize = 0;
        while i < b.len()
            invariant
                b@ == encode_utf8(self@),
                i <= b@.len(),
                split_dots(b@.subrange(0, i as int)) == done.push(cur@),
                out@ == labels_wire(done),
            decreases b@.len() - i,
        {
            let x = b[i];
            proof {
                assert(b@.subrange(0, i + 1).drop_last() =~= b@.subrange(0, i as int));
            }
            if x == DOT {
                let mut part = label_part(&cur);
                out.append(&mut part);
                proof {
                    assert(done.push(cur@).drop_last() =~= done);
                    done = done.push(cur@);
                    assert(done.push(Seq::empty()).drop_last() =~= done);
                }
                cur = Vec::new();
                proof {
                    assert(split_dots(b@.subrange(0, i + 1)) =~= done.push(cur@));
                }
            } else {
                cur.push(x);
                proof {
                    assert(split_dots(b@.subrange(0, i + 1)) =~= done.push(cur@));
                }
            }
            i = i + 1;
        }
        let mut part = label_part(&cur);
        out.append(&mut part);
        out.push(0);
        proof {
            assert(b@.subrange(0, b@.len() as int) =~= b@);
            assert(done.push(cur@).drop_last() =~= done);
            assert(out@ =~= name_wire(self@));
        }
        out
    }

    /// Decodes a name from the cursor, following at most one pointer; labels
    /// that are not valid UTF-8 are dropped from the text.
    pub fn new(cursor: &mut Cursor) -> (res: Result<Self, Error>)
        ensures
            final(cursor).buf@ == old(cursor).buf@,
            match parse_name(old(cursor).buf@, old(cursor).pos as int) {
                Ok((s, q)) => res is Ok && res->Ok_0@ == s && final(cursor).pos == q,
                Err(e) => res == Err::<DomainName, Error>(e),
            },
    {
        let ghost b = cursor.buf@;
        let ghost start = cursor.pos as int;
        let mut tokens: Vec<Vec<u8>> = Vec::new();
        let mut byte = match read_1_byte(cursor) {
            Ok(x) => x,
            Err(e) => return Err(e),
        };
        loop
            invariant
                b == old(cursor).buf@,
                start == old(cursor).pos,
                cursor.buf@ == b,
                1 <= cursor.pos <= b.len(),
                byte == b[cursor.pos - 1],
                name_labels(b, start) == after(
                    labels_view(tokens@),
                    name_labels(b, cursor.pos - 1),
                ),
            decreases b.len() - cursor.pos,
        {
            let ghost cur = cursor.pos - 1;
            if byte == 0 {
                proof {
                    assert(labels_view(tokens@) + Seq::empty() =~= labels_view(tokens@));
                }
                return Ok(DomainName(text_of(&tokens)));
            } else if byte >= 0b1100_0000 {
                let low = match read_1_byte(cursor) {
                    Ok(x) => x,
                    Err(e) => return Err(e),
                };
                let offset: u16 = ((byte - 0b1100_0000) as u16) * 256 + (low as u16);
                let mut target = Cursor::at(cursor.buf, offset as usize);
                let mut pointed = match Self::uncompressed_tokens(&mut target) {
                    Ok(x) => x,
                    Err(e) => return Err(e),
                };
                let ghost before = tokens@;
                let ghost pv = pointed@;
                tokens.append(&mut pointed);
                proof {
                    assert(labels_view(tokens@) =~= labels_view(before) + labels_view(pv));
                }
                return Ok(DomainName(text_of(&tokens)));
            } else {
                let bytes = match read_n_bytes(cursor, byte as usize) {
                    Ok(x) => x,
                    Err(e) => return Err(e),
                };
                let ghost before = tokens@;
                tokens.push(bytes);
                byte = match read_1_byte(cursor) {
                    Ok(x) => x,
                    Err(e) => return Err(e),
                };
                proof {
                    assert(labels_view(tokens@) =~= labels_view(before) + seq![
                        b.subrange(cur + 1, cur + 1 + b[cur]),
                    ]);
                    assert(labels_view(tokens@) + name_labels(b, cursor.pos - 1)->Ok_0.0
                        =~= labels_view(before) + (seq![b.subrange(cur + 1, cur + 1 + b[cur])]
                        + name_labels(b, cursor.pos - 1)->Ok_0.0));
                }
            }
        }
    }

    /// Plain labels from the cursor up to a zero length byte.
    fn uncompressed_tokens(r: &mut Cursor) -> (res: Result<Vec<Vec<u8>>, Error>)
        ensures
            final(r).buf@ == old(r).buf@,
            match plain_labels(old(r).buf@, old(r).pos as int) {
                Ok((ls, q)) => res is Ok && labels_view(res->Ok_0@) == ls && final(r).pos == q,
                Err(e) => res == Err::<Vec<Vec<u8>>, Error>(e),
            },
    {
        let ghost b = r.buf@;
        let ghost start = r.pos as int;
        let mut tokens: Vec<Vec<u8>> = Vec::new();
        let mut len = match read_1_byte(r) {
            Ok(x) => x,
            Err(e) => return Err(e),
        };
        while len > 0
            invariant
                b == old(r).buf@,
                start == old(r).pos,
                r.buf@ == b,
                1 <= r.pos <= b.len(),
                len == b[r.pos - 1],
                plain_labels(b, start) == after(labels_view(tokens@), plain_labels(b, r.pos - 1)),
            decreases b.len() - r.pos,
        {
            let ghost cur = r.pos - 1;
            let bytes = match read_n_bytes(r, len as usize) {
                Ok(x) => x,
                Err(e) => return Err(e),
            };
            let ghost before = tokens@;
            tokens.push(bytes);
            len = match read_1_byte(r) {
                Ok(x) => x,
                Err(e) => return Err(e),
            };
            proof {
                assert(labels_view(tokens@) =~= labels_view(before) + seq![
                    b.subrange(cur + 1, cur + 1 + b[cur]),
                ]);
                assert(labels_view(tokens@) + plain_labels(b, r.pos - 1)->Ok_0.0
                    =~= labels_view(before) + (seq![b.subrange(cur + 1, cur + 1 + b[cur])]
                    + plain_labels(b, r.pos - 1)->Ok_0.0));
            }
        }
        proof {
            assert(labels_view(tokens@) + Seq::empty() =~= labels_view(tokens@));
        }
        Ok(tokens)
    }
}

/// The dotted text of labels: the valid UTF-8 ones, joined with dots.
fn text_of(tokens: &Vec<Vec<u8>>) -> (r: String)
    ensures
        r@ == name_text(labels_view(tokens@)),
{
    let mut out = String::new();
    let mut empty = true;
    let mut i: usize = 0;
    while i < tokens.len()
        invariant
            i <= tokens@.len(),
            out@ == join_dots(kept_text(labels_view(tokens@).subrange(0, i as int))),
            empty == (kept_text(labels_view(tokens@).subrange(0, i as int)).len() == 0),
        decreases tokens@.len() - i,
    {
        let ghost ls = labels_view(tokens@);
        proof {
            assert(ls.subrange(0, i + 1).drop_last() =~= ls.subrange(0, i as int));
        }
        match utf8_text(&tokens[i]) {
            Some(s) => {
                let ghost k = kept_text(ls.subrange(0, i as int));
                if !empty {
                    let dot = ".";
                    proof {
                        reveal_strlit(".");
                    }
                    out.append(dot);
                }
                out.append(s.as_str());
                empty = false;
                proof {
                    let k1 = kept_text(ls.subrange(0, i + 1));
                    assert(k1 == k.push(s@));
                    assert(k1.drop_last() =~= k);
                    if k.len() > 0 {
                        assert(out@ =~= join_dots(k) + seq!['.'] + s@);
                    } else {
                        assert(out@ =~= s@);
                    }
                }
            },
            None => {},
        }
        i = i + 1;
    }
    proof {
        assert(labels_view(tokens@).subrange(0, tokens@.len() as int) =~= labels_view(tokens@));
    }
    out
}

fn label_part(label: &Vec<u8>) -> (r: Vec<u8>)
    ensures
        r@ == label_wire(label@),
{
    let mut out: Vec<u8> = Vec::new();
    out.push((label.len() % 256) as u8);
    let mut i: usize = 0;
    while i < label.len()
        invariant
            i <= label@.len(),
            out@ == seq![(label@.len() % 256) as u8] + label@.subrange(0, i as int),
        decreases label@.len() - i,
    {
        out.push(label[i]);
        i = i + 1;
        proof {
            assert(out@ =~= seq![(label@.len() % 256) as u8] + label@.subrange(0, i as int));
        }
    }
    proof {
        assert(label@.subrange(0, label@.len() as int) =~= label@);
    }
    out
}

} // verus!
