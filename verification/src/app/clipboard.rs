//! Where a copied selection goes: the terminal's OSC 52 clipboard, or a
//! recording sink for tests.

use vstd::prelude::*;
use std::cell::RefCell;
use std::rc::Rc;
use vstd::string::StringSliceAdditionalSpecFns;
use crate::text::{chars_of, concat, string_of};

verus! {

#[verifier::external_type_specification]
#[verifier::external_body]
#[verifier::reject_recursive_types(T)]
pub struct ExRefCell<T: ?Sized>(std::cell::RefCell<T>);

/// Destination for a copied selection's text.
pub trait Clipboard {
    fn set(&mut self, text: &str);
}

/// The RFC 4648 base64 alphabet.
pub open spec fn b64_alphabet() -> Seq<char> {
    "ABCDEFGHIJKLMNOPQRSTUVWXYZabcdefghijklmnopqrstuvwxyz0123456789+/"@
}

/// The four output characters of one input chunk of one to three bytes,
/// padded with `=`.
#[verifier::opaque]
pub open spec fn b64_chunk(c: Seq<u8>) -> Seq<char> {
    let b0 = c[0] as int;
    let b1 = if c.len() > 1 { c[1] as int } else { 0 };
    let b2 = if c.len() > 2 { c[2] as int } else { 0 };
    let n = b0 * 65536 + b1 * 256 + b2;
    seq![
        b64_alphabet()[(n / 262144) % 64],
        b64_alphabet()[(n / 4096) % 64],
        if c.len() > 1 { b64_alphabet()[(n / 64) % 64] } else { '=' },
        if c.len() > 2 { b64_alphabet()[n % 64] } else { '=' },
    ]
}

/// Base64 of `data` from byte `i` on, three bytes at a time.
pub open spec fn b64_from(data: Seq<u8>, i: int) -> Seq<char>
    decreases data.len() + 3 - i,
{
    if i < 0 || i >= data.len() {
        Seq::empty()
    } else {
        let end = if data.len() - i < 3 { data.len() as int } else { i + 3 };
        b64_chunk(data.subrange(i, end)) + b64_from(data, i + 3)
    }
}

/// Standard, `=`-padded base64 of `data`.
pub open spec fn base64_of(data: Seq<u8>) -> Seq<char> {
    b64_from(data, 0)
}

/// The four characters of the chunk `data[i..i + len]`.
fn encode_chunk(alphabet: &Vec<char>, data: &[u8], i: usize, len: usize) -> (r: Vec<char>)
    requires
        alphabet@ == b64_alphabet(),
        alphabet@.len() == 64,
        1 <= len <= 3,
        i + len <= data.len(),
    ensures
        r@ == b64_chunk(data@.subrange(i as int, i + len)),
{
    let ghost c = data@.subrange(i as int, i + len);
    let b0 = data[i] as u32;
    let b1 = if len > 1 { data[i + 1] as u32 } else { 0 };
    let b2 = if len > 2 { data[i + 2] as u32 } else { 0 };
    assert(b0 == c[0] as int);
    assert(len > 1 ==> b1 == c[1] as int);
    assert(len > 2 ==> b2 == c[2] as int);
    let n: u32 = b0 * 65536 + b1 * 256 + b2;
    let mut r: Vec<char> = Vec::new();
    r.push(alphabet[((n / 262144) % 64) as usize]);
    r.push(alphabet[((n / 4096) % 64) as usize]);
    if len > 1 {
        r.push(alphabet[((n / 64) % 64) as usize]);
    } else {
        r.push('=');
    }
    if len > 2 {
        r.push(alphabet[(n % 64) as usize]);
    } else {
        r.push('=');
    }
    reveal(b64_chunk);
    assert(r@ =~= b64_chunk(c));
    r
}

/// Standard (RFC 4648) base64 with `=` padding.
pub fn base64_encode(data: &[u8]) -> (r: String)
    ensures
        r@ == base64_of(data@),
{
    let alphabet = chars_of("ABCDEFGHIJKLMNOPQRSTUVWXYZabcdefghijklmnopqrstuvwxyz0123456789+/");
    proof {
        reveal_strlit("ABCDEFGHIJKLMNOPQRSTUVWXYZabcdefghijklmnopqrstuvwxyz0123456789+/");
    }
    let mut out: Vec<char> = Vec::new();
    let mut i: usize = 0;
    while i < data.len()
        invariant
            i <= data.len(),
            alphabet@ == b64_alphabet(),
            alphabet@.len() == 64,
            out@ + b64_from(data@, i as int) == base64_of(data@),
        decreases data.len() - i,
    {
        let len = if data.len() - i < 3 { data.len() - i } else { 3 };
        let chunk = encode_chunk(&alphabet, data, i, len);
        let ghost before = out@;
        out = concat(out.as_slice(), chunk.as_slice());
        proof {
            assert(before + b64_from(data@, i as int) == before + (chunk@ + b64_from(data@, i + 3)));
            assert(before + (chunk@ + b64_from(data@, i + 3)) =~= out@ + b64_from(data@, i + 3));
            assert(b64_from(data@, i + 3) == b64_from(data@, i + len));
        }
        i = i + len;
    }
    assert(out@ + b64_from(data@, i as int) =~= out@);
    string_of(out.as_slice())
}

/// The OSC 52 sequence that puts `payload` on the system clipboard.
pub open spec fn osc52_of(payload: Seq<char>) -> Seq<char> {
    "\x1b]52;c;"@ + payload + "\x07"@
}

/// Copies through the terminal's OSC 52 escape sequence (`ESC ] 52 ; c ;
/// <base64> BEL`); a terminal without OSC 52 ignores it. The sequence is
/// made here; writing it to the terminal is the program's part.
pub struct Osc52;

impl Osc52 {
    /// The escape sequence that copies `text`.
    pub fn sequence(text: &str) -> (r: String)
        ensures
            r@ == osc52_of(base64_of(text.spec_bytes())),
    {
        let payload = base64_encode(text.as_bytes());
        let head = chars_of("\x1b]52;c;");
        let body = chars_of(payload.as_str());
        let tail = chars_of("\x07");
        let a = concat(head.as_slice(), body.as_slice());
        string_of(concat(a.as_slice(), tail.as_slice()).as_slice())
    }
}

/// Test double: records the last copied text. Clones share one record.
#[derive(Debug, Default, Clone)]
pub struct TestSink(Rc<RefCell<Option<String>>>);

/// `RefCell::replace`: stores a new value. What a cell holds is not
/// tracked, so nothing is stated.
#[verifier::external_body]
fn cell_replace(c: &RefCell<Option<String>>, v: Option<String>) {
    c.replace(v);
}

/// A copy of what a cell holds (`RefCell::borrow`, then `clone`). The value
/// depends on every earlier write through any handle, so nothing is stated.
#[verifier::external_body]
fn cell_get(c: &RefCell<Option<String>>) -> Option<String> {
    c.borrow().clone()
}

impl Clipboard for TestSink {
    fn set(&mut self, text: &str) {
        cell_replace(&self.0, Some(text.to_owned()));
    }
}

impl TestSink {
    /// The last text set through any clone of this sink.
    pub fn last(&self) -> Option<String> {
        cell_get(&self.0)
    }
}

} // verus!
