//! Building the delimiters of a stream from its boundary.

use vstd::prelude::*;

verus! {

/// Appends the pieces of which delimiters are made.
pub trait BoundaryBuilder {
    /// Appends `\r\n`.
    fn append_crlf(&mut self) -> &mut Self;

    /// Appends `--`.
    fn append_prelude(&mut self) -> &mut Self;

    /// Appends the boundary.
    fn append_boundary(&mut self, boundary: &Vec<u8>) -> &mut Self;
}

impl BoundaryBuilder for Vec<u8> {
    fn append_crlf(&mut self) -> (r: &mut Vec<u8>)
        ensures
            r@ == old(self)@ + seq![13u8, 10u8],
            *final(self) == *final(r),
    {
        let ghost before = self@;
        self.push(13u8);
        self.push(10u8);
        assert(self@ =~= before + seq![13u8, 10u8]);
        self
    }

    fn append_prelude(&mut self) -> (r: &mut Vec<u8>)
        ensures
            r@ == old(self)@ + seq![45u8, 45u8],
            *final(self) == *final(r),
    {
        let ghost before = self@;
        self.push(45u8);
        self.push(45u8);
        assert(self@ =~= before + seq![45u8, 45u8]);
        self
    }

    fn append_boundary(&mut self, boundary: &Vec<u8>) -> (r: &mut Vec<u8>)
        ensures
            r@ == old(self)@ + boundary@,
            *final(self) == *final(r),
    {
        let ghost before = self@;
        self.extend_from_slice(boundary.as_slice());
        assert(self@ =~= before + boundary@);
        self
    }
}

} // verus!
