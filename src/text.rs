use vstd::prelude::*;
use vstd::utf8::{decode_utf8, valid_utf8};

use crate::object::{Dictionary, ObjectId, Primitive, Stream};

verus! {

/// The character of a decimal digit.
pub open spec fn digit(d: nat) -> char {
    if d == 0 {
        '0'
    } else if d == 1 {
        '1'
    } else if d == 2 {
        '2'
    } else if d == 3 {
        '3'
    } else if d == 4 {
        '4'
    } else if d == 5 {
        '5'
    } else if d == 6 {
        '6'
    } else if d == 7 {
        '7'
    } else if d == 8 {
        '8'
    } else {
        '9'
    }
}

/// Decimal digits of `n`, without leading zeros.
pub open spec fn nat_text(n: nat) -> Seq<char>
    decreases n,
{
    if n < 10 {
        seq![digit(n)]
    } else {
        nat_text(n / 10) + seq![digit(n % 10)]
    }
}

/// Decimal digits of `i`, with a minus sign before a negative number.
pub open spec fn int_text(i: int) -> Seq<char> {
    if i < 0 {
        seq!['-'] + nat_text((-i) as nat)
    } else {
        nat_text(i as nat)
    }
}

/// Each byte in decimal, each followed by a comma.
pub open spec fn byte_list_text(bytes: Seq<u8>) -> Seq<char>
    decreases bytes.len(),
{
    if bytes.len() == 0 {
        Seq::empty()
    } else {
        byte_list_text(bytes.drop_last()) + nat_text(bytes.last() as nat) + seq![',']
    }
}

/// The bytes in decimal, separated by a comma and a space.
pub open spec fn byte_items_text(bytes: Seq<u8>) -> Seq<char>
    decreases bytes.len(),
{
    if bytes.len() == 0 {
        Seq::empty()
    } else if bytes.len() == 1 {
        nat_text(bytes[0] as nat)
    } else {
        byte_items_text(bytes.drop_last()) + seq![',', ' '] + nat_text(bytes.last() as nat)
    }
}

/// A list of bytes as a bracketed, comma-separated list of numbers.
pub open spec fn byte_dump_text(bytes: Seq<u8>) -> Seq<char> {
    seq!['['] + byte_items_text(bytes) + seq![']']
}

/// `obj_id(<number> <generation>)`.
pub open spec fn object_id_text(id: ObjectId) -> Seq<char> {
    "obj_id("@ + nat_text(id.obj_nr as nat) + seq![' '] + nat_text(id.gen_nr as nat) + seq![')']
}

/// A stream: its content as text between the two keywords, or a byte dump
/// when the content is not UTF-8.
pub open spec fn stream_text(st: Stream) -> Seq<char> {
    let body = if valid_utf8(st.content@) {
        decode_utf8(st.content@)
    } else {
        byte_dump_text(st.content@)
    };
    "stream\n"@ + body + "\nendstream\n"@
}

/// `f` renders every bit pattern, and the text depends on the bits alone.
pub open spec fn renders_numbers<F: Fn(u32) -> String>(f: F) -> bool {
    &&& forall|b: u32| #[trigger] f.requires((b,))
    &&& forall|b: u32, t1: String, t2: String|
        #[trigger] f.ensures((b,), t1) && #[trigger] f.ensures((b,), t2) ==> t1@ == t2@
}

/// The text that `f` gives for the bits `b`.
pub open spec fn number_text<F: Fn(u32) -> String>(f: F, b: u32) -> Seq<char> {
    (choose|t: String| f.ensures((b,), t))@
}

/// The texts that `f` gives, as a spec function of the bits.
pub open spec fn number_texts<F: Fn(u32) -> String>(f: F) -> spec_fn(u32) -> Seq<char> {
    |b: u32| number_text(f, b)
}

/// The text of a value; `f` gives the text of a real number's bits.
pub open spec fn text(p: Primitive, f: spec_fn(u32) -> Seq<char>) -> Seq<char>
    decreases p,
{
    match p {
        Primitive::Integer(n) => int_text(n as int),
        Primitive::Number(b) => f(b),
        Primitive::Boolean(b) => if b {
            "true"@
        } else {
            "false"@
        },
        Primitive::String(bytes) => if valid_utf8(bytes@) {
            seq!['('] + decode_utf8(bytes@) + seq![')']
        } else {
            "encoded("@ + byte_list_text(bytes@) + seq![')']
        },
        Primitive::HexString(bytes) => byte_list_text(bytes@),
        Primitive::Stream(st) => stream_text(st),
        Primitive::Dictionary(d) => "<< "@ + entries_text(d.entries@, f) + ">>\n"@,
        Primitive::Array(v) => seq!['['] + items_text(v@, f) + seq![']'],
        Primitive::Reference(id) => nat_text(id.obj_nr as nat) + seq![' '] + nat_text(
            id.gen_nr as nat,
        ) + " R"@,
        Primitive::Name(name) => seq!['/'] + name@,
        Primitive::Null => "Null"@,
    }
}

/// Each element's text followed by a space.
pub open spec fn items_text(items: Seq<Primitive>, f: spec_fn(u32) -> Seq<char>) -> Seq<char>
    decreases items,
{
    if items.len() == 0 {
        Seq::empty()
    } else {
        items_text(items.drop_last(), f) + text(items.last(), f) + seq![' ']
    }
}

/// Each entry as `/<key> <value>`.
pub open spec fn entries_text(
    entries: Seq<(String, Primitive)>,
    f: spec_fn(u32) -> Seq<char>,
) -> Seq<char>
    decreases entries,
{
    if entries.len() == 0 {
        Seq::empty()
    } else {
        entries_text(entries.drop_last(), f) + seq!['/'] + entries.last().0@ + seq![' '] + text(
            entries.last().1,
            f,
        )
    }
}


/// Relies on std::str::from_utf8: it accepts exactly the valid UTF-8 byte
/// sequences and then yields the text that they encode.
#[verifier::external_body]
fn decode_text(bytes: &Vec<u8>) -> (r: Option<String>)
    ensures
        r is Some <==> valid_utf8(bytes@),
        r matches Some(t) ==> t@ == decode_utf8(bytes@),
{
    match std::str::from_utf8(bytes.as_slice()) {
        Ok(t) => Some(t.to_string()),
        Err(_) => None,
    }
}

fn digit_str(d: u64) -> (r: &'static str)
    requires
        d < 10,
    ensures
        r@ == seq![digit(d as nat)],
{
    if d == 0 {
        proof { reveal_strlit("0"); }
        "0"
    } else if d == 1 {
        proof { reveal_strlit("1"); }
        "1"
    } else if d == 2 {
        proof { reveal_strlit("2"); }
        "2"
    } else if d == 3 {
        proof { reveal_strlit("3"); }
        "3"
    } else if d == 4 {
        proof { reveal_strlit("4"); }
        "4"
    } else if d == 5 {
        proof { reveal_strlit("5"); }
        "5"
    } else if d == 6 {
        proof { reveal_strlit("6"); }
        "6"
    } else if d == 7 {
        proof { reveal_strlit("7"); }
        "7"
    } else if d == 8 {
        proof { reveal_strlit("8"); }
        "8"
    } else {
        proof { reveal_strlit("9"); }
        "9"
    }
}

/// Appends the decimal digits of `n`.
fn push_nat(out: &mut String, n: u64)
    ensures
        final(out)@ == old(out)@ + nat_text(n as nat),
    decreases n,
{
    if n >= 10 {
        push_nat(out, n / 10);
    }
    out.append(digit_str(n % 10));
    assert(out@ =~= old(out)@ + nat_text(n as nat));
}

/// Appends the decimal form of `n`, with a minus sign when it is negative.
fn push_int(out: &mut String, n: i32)
    ensures
        final(out)@ == old(out)@ + int_text(n as int),
{
    if n < 0 {
        proof { reveal_strlit("-"); }
        out.append("-");
        let m: i64 = -(n as i64);
        push_nat(out, m as u64);
        assert(final(out)@ =~= old(out)@ + int_text(n as int));
    } else {
        push_nat(out, n as u64);
    }
}

/// Appends each byte in decimal, each followed by a comma.
fn push_byte_list(out: &mut String, bytes: &Vec<u8>)
    ensures
        final(out)@ == old(out)@ + byte_list_text(bytes@),
{
    let ghost start = out@;
    let mut i: usize = 0;
    while i < bytes.len()
        invariant
            i <= bytes@.len(),
            out@ == start + byte_list_text(bytes@.subrange(0, i as int)),
        decreases bytes@.len() - i,
    {
        proof {
            reveal_strlit(",");
            assert(bytes@.subrange(0, i as int + 1).drop_last() =~= bytes@.subrange(0, i as int));
        }
        push_nat(out, bytes[i] as u64);
        out.append(",");
        i = i + 1;
        assert(out@ =~= start + byte_list_text(bytes@.subrange(0, i as int)));
    }
    assert(bytes@.subrange(0, i as int) =~= bytes@);
}

/// Appends the bytes as a bracketed list of numbers.
fn push_byte_dump(out: &mut String, bytes: &Vec<u8>)
    ensures
        final(out)@ == old(out)@ + byte_dump_text(bytes@),
{
    let ghost start = out@;
    proof {
        reveal_strlit("[");
        reveal_strlit("]");
        reveal_strlit(", ");
    }
    out.append("[");
    let mut i: usize = 0;
    while i < bytes.len()
        invariant
            i <= bytes@.len(),
            out@ == start + seq!['['] + byte_items_text(bytes@.subrange(0, i as int)),
        decreases bytes@.len() - i,
    {
        proof {
            assert(bytes@.subrange(0, i as int + 1).drop_last() =~= bytes@.subrange(0, i as int));
        }
        let ghost before = out@;
        proof {
            reveal_strlit(", ");
        }
        if i > 0 {
            out.append(", ");
        }
        push_nat(out, bytes[i] as u64);
        proof {
            let next = bytes@.subrange(0, i as int + 1);
            assert(next.last() == bytes@[i as int]);
            assert(next[0] == bytes@[0]);
            if i > 0 {
                assert(out@ =~= before + seq![',', ' '] + nat_text(bytes@[i as int] as nat));
                assert(byte_items_text(next) == byte_items_text(bytes@.subrange(0, i as int))
                    + seq![',', ' '] + nat_text(bytes@[i as int] as nat));
            } else {
                assert(byte_items_text(next) == nat_text(bytes@[0] as nat));
                assert(byte_items_text(bytes@.subrange(0, 0)) =~= Seq::<char>::empty());
            }
        }
        i = i + 1;
        assert(out@ =~= start + seq!['['] + byte_items_text(bytes@.subrange(0, i as int)));
    }
    out.append("]");
    assert(bytes@.subrange(0, i as int) =~= bytes@);
    assert(out@ =~= start + byte_dump_text(bytes@));
}

impl ObjectId {
    /// `obj_id(<number> <generation>)`.
    pub fn to_text(&self) -> (r: String)
        ensures
            r@ == object_id_text(*self),
    {
        proof {
            reveal_strlit(" ");
            reveal_strlit(")");
        }
        let mut out = String::new();
        out.append("obj_id(");
        push_nat(&mut out, self.obj_nr as u64);
        out.append(" ");
        push_nat(&mut out, self.gen_nr as u64);
        out.append(")");
        assert(out@ =~= object_id_text(*self));
        out
    }
}

impl Stream {
    fn write_text(&self, out: &mut String)
        ensures
            final(out)@ == old(out)@ + stream_text(*self),
    {
        let ghost start = out@;
        out.append("stream\n");
        match decode_text(&self.content) {
            Some(t) => out.append(t.as_str()),
            None => push_byte_dump(out, &self.content),
        }
        out.append("\nendstream\n");
        assert(out@ =~= start + stream_text(*self));
    }

    /// The stream's content between `stream` and `endstream` lines.
    pub fn to_text(&self) -> (r: String)
        ensures
            r@ == stream_text(*self),
    {
        let mut out = String::new();
        self.write_text(&mut out);
        assert(out@ =~= stream_text(*self));
        out
    }
}


/// A renderer that meets `renders_numbers` gives `number_text` for the bits.
pub proof fn lemma_number_text<F: Fn(u32) -> String>(f: F, b: u32, t: String)
    requires
        renders_numbers(f),
        f.ensures((b,), t),
    ensures
        number_text(f, b) == t@,
{
    let c = choose|c: String| f.ensures((b,), c);
    assert(f.ensures((b,), c));
}

impl Primitive {
    fn write_text<F: Fn(u32) -> String>(&self, out: &mut String, number_text: &F)
        requires
            renders_numbers(*number_text),
        ensures
            final(out)@ == old(out)@ + text(*self, number_texts(*number_text)),
        decreases self,
    {
        let ghost start = out@;
        let ghost f = number_texts(*number_text);
        match self {
            Primitive::Integer(n) => push_int(out, *n),
            Primitive::Number(b) => {
                let t = number_text(*b);
                proof {
                    lemma_number_text(*number_text, *b, t);
                }
                out.append(t.as_str());
            },
            Primitive::Boolean(b) => {
                if *b {
                    out.append("true");
                } else {
                    out.append("false");
                }
            },
            Primitive::String(bytes) => {
                proof {
                    reveal_strlit("(");
                    reveal_strlit(")");
                }
                match decode_text(bytes) {
                    Some(t) => {
                        out.append("(");
                        out.append(t.as_str());
                        out.append(")");
                    },
                    None => {
                        out.append("encoded(");
                        push_byte_list(out, bytes);
                        out.append(")");
                    },
                }
            },
            Primitive::HexString(bytes) => push_byte_list(out, bytes),
            Primitive::Stream(st) => st.write_text(out),
            Primitive::Dictionary(d) => {
                out.append("<< ");
                let ghost opened = out@;
                let mut i: usize = 0;
                while i < d.entries.len()
                    invariant
                        renders_numbers(*number_text),
                        f == number_texts(*number_text),
                        *self == Primitive::Dictionary(*d),
                        i <= d.entries@.len(),
                        out@ == opened + entries_text(d.entries@.subrange(0, i as int), f),
                    decreases d.entries@.len() - i,
                {
                    proof {
                        reveal_strlit("/");
                        reveal_strlit(" ");
                        assert(d.entries@.subrange(0, i as int + 1).drop_last()
                            =~= d.entries@.subrange(0, i as int));
                    }
                    let entry = &d.entries[i];
                    proof {
                        assert(decreases_to!(*self => (*self)->Dictionary_0));
                        assert(decreases_to!(*d => d.entries));
                        assert(decreases_to!(d.entries => d.entries[i as int]));
                        assert(decreases_to!(d.entries[i as int] => d.entries[i as int].1));
                    }
                    out.append("/");
                    out.append(entry.0.as_str());
                    out.append(" ");
                    entry.1.write_text(out, number_text);
                    i = i + 1;
                    assert(out@ =~= opened + entries_text(d.entries@.subrange(0, i as int), f));
                }
                assert(d.entries@.subrange(0, i as int) =~= d.entries@);
                out.append(">>\n");
            },
            Primitive::Array(v) => {
                proof {
                    reveal_strlit("[");
                    reveal_strlit("]");
                }
                out.append("[");
                let ghost opened = out@;
                let mut i: usize = 0;
                while i < v.len()
                    invariant
                        renders_numbers(*number_text),
                        f == number_texts(*number_text),
                        *self == Primitive::Array(*v),
                        i <= v@.len(),
                        out@ == opened + items_text(v@.subrange(0, i as int), f),
                    decreases v@.len() - i,
                {
                    proof {
                        reveal_strlit(" ");
                        assert(v@.subrange(0, i as int + 1).drop_last() =~= v@.subrange(0, i as int));
                    }
                    proof {
                        assert(decreases_to!(*self => (*self)->Array_0));
                        assert(decreases_to!(*v => v[i as int]));
                    }
                    v[i].write_text(out, number_text);
                    out.append(" ");
                    i = i + 1;
                    assert(out@ =~= opened + items_text(v@.subrange(0, i as int), f));
                }
                assert(v@.subrange(0, i as int) =~= v@);
                out.append("]");
            },
            Primitive::Reference(id) => {
                proof {
                    reveal_strlit(" ");
                }
                push_nat(out, id.obj_nr as u64);
                out.append(" ");
                push_nat(out, id.gen_nr as u64);
                out.append(" R");
            },
            Primitive::Name(name) => {
                proof {
                    reveal_strlit("/");
                }
                out.append("/");
                out.append(name.as_str());
            },
            Primitive::Null => out.append("Null"),
        }
        assert(out@ =~= start + text(*self, f));
    }

    /// The value in the format's textual syntax; `number_text` renders the
    /// bits of a real number.
    pub fn to_text<F: Fn(u32) -> String>(&self, number_text: &F) -> (r: String)
        requires
            renders_numbers(*number_text),
        ensures
            r@ == text(*self, number_texts(*number_text)),
    {
        let mut out = String::new();
        self.write_text(&mut out, number_text);
        assert(out@ =~= text(*self, number_texts(*number_text)));
        out
    }
}

} // verus!
