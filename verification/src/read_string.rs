use vstd::prelude::*;
use crate::cursor::{can_read, ByteCursor};
use crate::error::FormatError;

verus! {

/// `String::push` appends one character and changes nothing else.
pub assume_specification[ String::push ](s: &mut String, c: char)
    ensures
        final(s)@ == old(s)@.push(c),
;

/// The offset of the first zero byte at or after `p`, if there is one.
pub open spec fn zero_from(b: Seq<u8>, p: int) -> Option<int>
    decreases b.len() - p,
{
    if p < 0 || p >= b.len() {
        None
    } else if b[p] == 0 {
        Some(p)
    } else {
        zero_from(b, p + 1)
    }
}

/// The bytes from `p` up to `e`, each taken as the character with that code.
pub open spec fn text_between(b: Seq<u8>, p: int, e: int) -> Seq<char> {
    Seq::new((e - p) as nat, |i: int| b[p + i] as char)
}

/// What a buffer holds as a zero-terminated string at `p`: the characters
/// before the first zero byte and the offset just behind that byte. A buffer
/// without a zero byte from `p` on holds no string there.
pub open spec fn zstring_at(b: Seq<u8>, p: int) -> Result<(Seq<char>, int), FormatError> {
    match zero_from(b, p) {
        Some(e) => Ok((text_between(b, p, e), e + 1)),
        None => Err(FormatError::Truncated),
    }
}

/// The first zero byte from `p` on lies at or after `p`, inside the buffer,
/// and no byte before it is zero.
pub proof fn lemma_zero_from(b: Seq<u8>, p: int)
    requires
        0 <= p,
    ensures
        match zero_from(b, p) {
            Some(e) => p <= e < b.len() && b[e] == 0 && forall|i: int| p <= i < e ==> b[i] != 0,
            None => forall|i: int| p <= i < b.len() ==> b[i] != 0,
        },
    decreases b.len() - p,
{
    if p < b.len() && b[p] != 0 {
        lemma_zero_from(b, p + 1);
    }
}

/// Reading strings and byte runs from a sequential source.
pub trait ReadString {
    /// The bytes of the source.
    spec fn source(&self) -> Seq<u8>;

    /// The offset of the next byte to read.
    spec fn offset(&self) -> nat;

    /// Reads a zero-terminated string: one character per byte, the
    /// terminator consumed and left out.
    fn read_zstring(&mut self) -> (r: Result<String, FormatError>)
        ensures
            final(self).source() == old(self).source(),
            match zstring_at(old(self).source(), old(self).offset() as int) {
                Ok((text, next)) => r is Ok && r->Ok_0@ == text && final(self).offset() == next,
                Err(e) => r == Err::<String, FormatError>(e) && final(self).offset() == old(
                    self,
                ).offset(),
            },
    ;

    /// Reads the next `n` bytes.
    fn read_bytes(&mut self, n: usize) -> (r: Result<Vec<u8>, FormatError>)
        ensures
            final(self).source() == old(self).source(),
            can_read(old(self).source(), old(self).offset() as int, n as int) ==> r is Ok
                && r->Ok_0@ == old(self).source().subrange(
                old(self).offset() as int,
                old(self).offset() + n,
            ) && final(self).offset() == old(self).offset() + n,
            !can_read(old(self).source(), old(self).offset() as int, n as int) ==> r == Err::<
                Vec<u8>,
                FormatError,
            >(FormatError::Truncated) && final(self).offset() == old(self).offset(),
    ;
}

impl<'a> ReadString for ByteCursor<'a> {
    open spec fn source(&self) -> Seq<u8> {
        self.bytes()
    }

    open spec fn offset(&self) -> nat {
        self.pos()
    }

    fn read_zstring(&mut self) -> (r: Result<String, FormatError>) {
        let ghost b = self.bytes();
        let start: usize = self.position();
        let mut text = String::new();
        loop
            invariant
                self.bytes() == b,
                b == old(self).bytes(),
                start == old(self).pos(),
                start <= self.pos() <= b.len(),
                zero_from(b, self.pos() as int) == zero_from(b, start as int),
                text@ == text_between(b, start as int, self.pos() as int),
            decreases b.len() - self.pos(),
        {
            match self.read_u8() {
                Ok(v) => {
                    if v == 0 {
                        return Ok(text);
                    }
                    text.push(v as char);
                    proof {
                        assert(text@ =~= text_between(b, start as int, self.pos() as int));
                    }
                },
                Err(e) => {
                    self.seek(start)?;
                    return Err(e);
                },
            }
        }
    }

    fn read_bytes(&mut self, n: usize) -> (r: Result<Vec<u8>, FormatError>) {
        let ghost b = self.bytes();
        let start: usize = self.position();
        if n > self.remaining() {
            return Err(FormatError::Truncated);
        }
        let mut out: Vec<u8> = Vec::new();
        let mut i: usize = 0;
        while i < n
            invariant
                self.bytes() == b,
                b == old(self).bytes(),
                start == old(self).pos(),
                start + n <= b.len(),
                0 <= i <= n,
                self.pos() == start + i,
                out@ == b.subrange(start as int, start + i),
            decreases n - i,
        {
            let v: u8 = self.read_u8()?;
            out.push(v);
            proof {
                assert(out@ =~= b.subrange(start as int, start + i + 1));
            }
            i = i + 1;
        }
        Ok(out)
    }
}

} // verus!
