use vstd::prelude::*;
use vstd::string::*;
use vstd::utf8::*;

use super::{Chunk, ChunkView, chunk_view};

verus! {

/// The FNV-1a offset basis for 32-bit hashes.
pub const FNV_OFFSET_BASIS: u32 = 2166136261;

/// The FNV-1a prime for 32-bit hashes.
pub const FNV_PRIME: u32 = 16777619;

/// One round of FNV-1a: xor the byte in, then multiply by the prime modulo 2^32.
pub open spec fn fnv1a_step(hash: u32, byte: u8) -> u32 {
    (((hash ^ (byte as u32)) as int * 16777619) % 0x1_0000_0000) as u32
}

/// The 32-bit FNV-1a hash of a byte sequence.
pub open spec fn fnv1a(bytes: Seq<u8>) -> u32
    decreases bytes.len(),
{
    if bytes.len() == 0 {
        2166136261u32
    } else {
        fnv1a_step(fnv1a(bytes.drop_last()), bytes.last())
    }
}

/// What a string object stands for: its byte length, its bytes and its hash.
pub struct StringView {
    pub length: usize,
    pub chars: Seq<u8>,
    pub hash: u32,
}

/// The view of the string object that interning `bytes` gives.
pub open spec fn interned(bytes: Seq<u8>) -> StringView {
    StringView { length: bytes.len() as usize, chars: bytes, hash: fnv1a(bytes) }
}

/// An immutable string value with its precomputed hash.
#[derive(Debug, PartialEq)]
pub struct StringObject {
    pub length: usize,
    pub chars: Vec<u8>,
    pub hash: u32,
}

impl View for StringObject {
    type V = StringView;

    open spec fn view(&self) -> StringView {
        StringView { length: self.length, chars: self.chars@, hash: self.hash }
    }
}

/// What a function object stands for.
pub struct FunctionView {
    pub arity: usize,
    pub name: StringView,
    pub chunk: ChunkView,
}

/// A compiled function: the number of its parameters, its name (empty for the top-level
/// script) and its code.
#[derive(Debug, PartialEq)]
pub struct FunctionObject {
    pub arity: usize,
    pub name: StringObject,
    pub chunk: Chunk,
}

/// A callable that the host provides, known to the machine by its name.
#[derive(Debug, PartialEq)]
pub struct NativeObject {
    pub name: StringObject,
}

/// A heap object.
#[derive(Debug, PartialEq)]
pub enum Obj {
    String(StringObject),
    Function(FunctionObject),
    Native(NativeObject),
}

/// The view of a function object.
pub open spec fn function_view(f: FunctionObject) -> FunctionView
    decreases f,
{
    FunctionView { arity: f.arity, name: f.name@, chunk: chunk_view(f.chunk) }
}

impl View for FunctionObject {
    type V = FunctionView;

    open spec fn view(&self) -> FunctionView {
        function_view(*self)
    }
}

impl Clone for StringObject {
    fn clone(&self) -> (r: Self)
        ensures
            r@ == self@,
    {
        StringObject { length: self.length, chars: self.chars.clone(), hash: self.hash }
    }
}

impl Clone for NativeObject {
    fn clone(&self) -> (r: Self)
        ensures
            r.name@ == self.name@,
    {
        NativeObject { name: self.name.clone() }
    }
}

impl Clone for FunctionObject {
    fn clone(&self) -> (r: Self)
        ensures
            r@ == self@,
        decreases *self,
    {
        FunctionObject { arity: self.arity, name: self.name.clone(), chunk: self.chunk.clone() }
    }
}

impl Clone for Obj {
    fn clone(&self) -> (r: Self)
        ensures
            r@ == self@,
        decreases *self,
    {
        match self {
            Obj::String(s) => Obj::String(s.clone()),
            Obj::Function(f) => Obj::Function(f.clone()),
            Obj::Native(n) => Obj::Native(n.clone()),
        }
    }
}

/// Names the text that `String::from_utf8_lossy` makes of a byte sequence.
pub uninterp spec fn lossy_text(bytes: Seq<u8>) -> Seq<char>;

/// Calls `String::from_utf8_lossy` and takes ownership of what it returns. The result is
/// a function of the bytes alone; bytes that are valid UTF-8 are decoded unchanged, and
/// what replaces an invalid sequence is left to the name.
#[verifier::external_body]
fn text_from_bytes(bytes: &[u8]) -> (text: String)
    ensures
        text@ == lossy_text(bytes@),
        valid_utf8(bytes@) ==> text@ == decode_utf8(bytes@),
{
    String::from_utf8_lossy(bytes).into_owned()
}

impl StringObject {
    /// Interns the bytes of `value`.
    pub fn new(value: &str) -> (r: Self)
        ensures
            r@ == interned(value.spec_bytes()),
    {
        Self::from_bytes(value.as_bytes())
    }

    /// Interns a byte slice.
    pub fn from_bytes(bytes: &[u8]) -> (r: Self)
        ensures
            r@ == interned(bytes@),
    {
        let mut chars: Vec<u8> = Vec::new();
        let mut i: usize = 0;
        while i < bytes.len()
            invariant
                i <= bytes.len(),
                chars@ == bytes@.subrange(0, i as int),
            decreases bytes.len() - i,
        {
            chars.push(bytes[i]);
            proof {
                assert(chars@ =~= bytes@.subrange(0, i + 1));
            }
            i += 1;
        }
        proof {
            assert(bytes@.subrange(0, i as int) =~= bytes@);
        }
        StringObject { length: bytes.len(), chars, hash: hash_bytes(bytes) }
    }

    /// The well-formedness of a string object: its length and hash are those of its bytes.
    pub open spec fn wf(&self) -> bool {
        self@ == interned(self.chars@)
    }

    /// Whether the string has no bytes.
    pub fn is_empty(&self) -> (r: bool)
        ensures
            r == (self.length == 0),
    {
        self.length == 0
    }

    /// The text of the string; the empty string reads as the name of the top-level script.
    pub fn as_str(&self) -> (r: String)
        ensures
            self.length == 0 ==> r@ == "<main>"@,
            self.length != 0 ==> r@ == lossy_text(self.chars@),
            self.length != 0 && valid_utf8(self.chars@) ==> r@ == decode_utf8(self.chars@),
    {
        if self.is_empty() {
            return String::from_str("<main>");
        }
        text_from_bytes(self.chars.as_slice())
    }

    /// Whether two strings agree in length, bytes and hash.
    pub fn same(&self, other: &StringObject) -> (r: bool)
        ensures
            r == (self@ == other@),
    {
        if self.length != other.length || self.hash != other.hash {
            return false;
        }
        let r = bytes_equal(self.chars.as_slice(), other.chars.as_slice());
        r
    }
}

/// Whether two byte slices hold the same bytes.
pub fn bytes_equal(a: &[u8], b: &[u8]) -> (r: bool)
    ensures
        r == (a@ == b@),
{
    if a.len() != b.len() {
        return false;
    }
    let mut i: usize = 0;
    while i < a.len()
        invariant
            i <= a.len(),
            a.len() == b.len(),
            a@.subrange(0, i as int) == b@.subrange(0, i as int),
        decreases a.len() - i,
    {
        if a[i] != b[i] {
            return false;
        }
        proof {
            assert(a@.subrange(0, i + 1) =~= a@.subrange(0, i as int).push(a@[i as int]));
            assert(b@.subrange(0, i + 1) =~= b@.subrange(0, i as int).push(b@[i as int]));
        }
        i += 1;
    }
    proof {
        assert(a@.subrange(0, i as int) =~= a@);
        assert(b@.subrange(0, i as int) =~= b@);
    }
    true
}

/// Strings interned from equal bytes agree in every field, the hash among them.
pub proof fn lemma_equal_content_equal_hash(a: StringObject, b: StringObject)
    requires
        a.wf(),
        b.wf(),
        a.chars@ == b.chars@,
    ensures
        a.hash == b.hash,
        a@ == b@,
{
}

impl FunctionObject {
    /// A function with no parameters, no name and no code.
    pub fn new() -> (r: Self)
        ensures
            r@ == (FunctionView {
                arity: 0,
                name: interned(Seq::empty()),
                chunk: ChunkView {
                    code: Seq::empty(),
                    lines: Seq::empty(),
                    constants: Seq::empty(),
                },
            }),
    {
        let empty: Vec<u8> = Vec::new();
        let r = FunctionObject {
            arity: 0,
            name: StringObject::from_bytes(empty.as_slice()),
            chunk: Chunk::new(),
        };
        proof {
            assert(r@.chunk.constants =~= Seq::empty());
        }
        r
    }
}

impl Default for FunctionObject {
    fn default() -> (r: Self)
        ensures
            r@ == (FunctionView {
                arity: 0,
                name: interned(Seq::empty()),
                chunk: ChunkView {
                    code: Seq::empty(),
                    lines: Seq::empty(),
                    constants: Seq::empty(),
                },
            }),
    {
        Self::new()
    }
}

/// Hashes a byte slice with 32-bit FNV-1a.
pub fn hash_bytes(bytes: &[u8]) -> (hash: u32)
    ensures
        hash == fnv1a(bytes@),
{
    let mut hash: u32 = FNV_OFFSET_BASIS;
    let mut i: usize = 0;
    while i < bytes.len()
        invariant
            i <= bytes.len(),
            hash == fnv1a(bytes@.subrange(0, i as int)),
        decreases bytes.len() - i,
    {
        proof {
            let next = bytes@.subrange(0, i + 1);
            assert(next.drop_last() =~= bytes@.subrange(0, i as int));
            assert(next.last() == bytes@[i as int]);
        }
        let mixed: u64 = (hash ^ (bytes[i] as u32)) as u64;
        hash = ((mixed * 16777619u64) % 0x1_0000_0000u64) as u32;
        i += 1;
    }
    proof {
        assert(bytes@.subrange(0, i as int) =~= bytes@);
    }
    hash
}

/// Hashes the raw bytes of a string with 32-bit FNV-1a.
pub fn hash_string(value: &str) -> (hash: u32)
    ensures
        hash == fnv1a(value.spec_bytes()),
{
    hash_bytes(value.as_bytes())
}

} // verus!
