//! Buffer format detection from file paths.

use vstd::prelude::*;
use vstd::string::StrSliceExecFns;
use vstd::utf8::encode_utf8;

verus! {

broadcast use vstd::utf8::encode_utf8_valid_utf8;

/// The file formats the library can recognize from a path.
#[derive(Clone, Copy, Debug, PartialEq, Eq, Structural)]
pub enum Type {
    CoffeeScript,
    JavaScript,
    JSON,
    XML,
    Ruby,
    Rust,
    ERB,
}

/// The bytes of a path after its last dot; the whole path when it holds
/// no dot.
pub open spec fn after_last_dot(p: Seq<u8>) -> Seq<u8>
    decreases p.len(),
{
    if p.len() == 0 {
        p
    } else if p.last() == 46u8 {
        Seq::empty()
    } else {
        after_last_dot(p.drop_last()).push(p.last())
    }
}

/// The type a path's trailing extension names, if the library recognizes
/// it.
pub open spec fn type_of(ext: Seq<u8>) -> Option<Type> {
    if ext == encode_utf8("coffee"@) {
        Some(Type::CoffeeScript)
    } else if ext == encode_utf8("js"@) {
        Some(Type::JavaScript)
    } else if ext == encode_utf8("json"@) {
        Some(Type::JSON)
    } else if ext == encode_utf8("xml"@) {
        Some(Type::XML)
    } else if ext == encode_utf8("rake"@) {
        Some(Type::Ruby)
    } else if ext == encode_utf8("rb"@) {
        Some(Type::Ruby)
    } else if ext == encode_utf8("rs"@) {
        Some(Type::Rust)
    } else if ext == encode_utf8("erb"@) {
        Some(Type::ERB)
    } else {
        None
    }
}

/// Infers a buffer type from the part of the path after its last dot.
pub fn from_path(path: &str) -> (r: Option<Type>)
    ensures
        r == type_of(after_last_dot(encode_utf8(path@))),
{
    let bytes = path.as_bytes_vec();
    let len = bytes.len();
    let mut start: usize = 0;
    let mut i: usize = 0;
    proof {
        assert(bytes@.take(0int) =~= Seq::<u8>::empty());
        assert(after_last_dot(bytes@.take(0int)) =~= bytes@.subrange(0int, 0int));
    }
    while i < len
        invariant
            0 <= start <= i <= len,
            len == bytes@.len(),
            after_last_dot(bytes@.take(i as int)) == bytes@.subrange(start as int, i as int),
        decreases len - i,
    {
        let b = bytes[i];
        proof {
            assert(bytes@.take(i as int + 1).drop_last() =~= bytes@.take(i as int));
            assert(bytes@.take(i as int + 1).last() == bytes@[i as int]);
            if b == 46u8 {
                assert(after_last_dot(bytes@.take(i as int + 1)) =~= bytes@.subrange(
                    i as int + 1,
                    i as int + 1,
                ));
            } else {
                assert(after_last_dot(bytes@.take(i as int + 1)) =~= bytes@.subrange(
                    start as int,
                    i as int + 1,
                ));
            }
        }
        if b == 46u8 {
            start = i + 1;
        }
        i = i + 1;
    }
    proof {
        assert(bytes@.take(len as int) =~= bytes@);
    }
    let ext = vstd::slice::slice_to_vec(
        vstd::slice::slice_subrange(bytes.as_slice(), start, len),
    );
    let ghost extv = after_last_dot(bytes@);
    if eq_lit(&ext, "coffee") {
        Some(Type::CoffeeScript)
    } else if eq_lit(&ext, "js") {
        Some(Type::JavaScript)
    } else if eq_lit(&ext, "json") {
        Some(Type::JSON)
    } else if eq_lit(&ext, "xml") {
        Some(Type::XML)
    } else if eq_lit(&ext, "rake") {
        Some(Type::Ruby)
    } else if eq_lit(&ext, "rb") {
        Some(Type::Ruby)
    } else if eq_lit(&ext, "rs") {
        Some(Type::Rust)
    } else if eq_lit(&ext, "erb") {
        Some(Type::ERB)
    } else {
        None
    }
}

/// Whether the bytes equal the bytes of the given literal.
fn eq_lit(bytes: &Vec<u8>, lit: &str) -> (r: bool)
    ensures
        r == (bytes@ == encode_utf8(lit@)),
{
    let lv = lit.as_bytes_vec();
    let r = *bytes == lv;
    proof {
        if bytes@ =~= lv@ {
        } else {
            assert(bytes@ != encode_utf8(lit@));
        }
    }
    r
}

} // verus!
