use vstd::prelude::*;
use vstd::string::StringSliceAdditionalSpecFns;

use crate::error::Error;
use crate::stream::{keyword_at, lemma_spaces_end, lemma_until_end, spaces_end, until_end, Stream};

verus! {

/// Where the link of an IRI (`#link`, after spaces) starts and ends; the link runs up to a
/// space or the end and may not be empty.
pub open spec fn iri_at(d: Seq<u8>, pos: int) -> Option<(int, int)> {
    let p = spaces_end(d, pos);
    if p < d.len() && d[p] == 35 {
        let e = until_end(d, p + 1, seq![32u8]);
        if e > p + 1 {
            Some((p + 1, e))
        } else {
            None
        }
    } else {
        None
    }
}

/// Where the link of a functional IRI (`url(#link)`, spaces allowed after `url(`, around the
/// link and after it) starts and ends, and where the reference ends.
pub open spec fn func_iri_at(d: Seq<u8>, pos: int) -> Option<(int, int, int)> {
    let kw = "url(".spec_bytes();
    let p = spaces_end(d, pos);
    if p < d.len() && keyword_at(d, p, kw) {
        let q = spaces_end(d, p + kw.len());
        if q < d.len() && d[q] == 35 {
            let e = until_end(d, q + 1, seq![32u8, 41u8]);
            let c = spaces_end(d, e);
            if c < d.len() && d[c] == 41 && e > q + 1 {
                Some((q + 1, e, c + 1))
            } else {
                None
            }
        } else {
            None
        }
    } else {
        None
    }
}

impl<'a> Stream<'a> {
    /// Parses an IRI reference, `#link`, and returns the link.
    ///
    /// Fails with `InvalidIRI` on anything else.
    pub fn parse_iri(&mut self) -> (r: Result<&'a [u8], Error>)
        ensures
            final(self).data() == old(self).data(),
            final(self).wf(),
            match iri_at(old(self).data(), old(self).cursor()) {
                Some((s, e)) => r is Ok && r->Ok_0@ == old(self).data().subrange(s, e)
                    && final(self).cursor() == e,
                None => r == Err::<&'a [u8], Error>(Error::InvalidIRI),
            },
    {
        let ghost d = self.data();
        self.skip_spaces();
        if !self.is_curr_byte_eq('#' as u8) {
            return Err(Error::InvalidIRI);
        }
        self.advance(1);
        let start = self.pos();
        proof {
            lemma_until_end(d, start as int, seq![32u8]);
        }
        let stops = [' ' as u8];
        assert(stops@ =~= seq![32u8]);
        self.skip_until(&stops);
        if self.pos() == start {
            return Err(Error::InvalidIRI);
        }
        Ok(self.slice_back(start))
    }

    /// Parses a functional IRI reference, `url(#link)`, and returns the link.
    ///
    /// Fails with `InvalidFuncIRI` on anything else.
    pub fn parse_func_iri(&mut self) -> (r: Result<&'a [u8], Error>)
        ensures
            final(self).data() == old(self).data(),
            final(self).wf(),
            match func_iri_at(old(self).data(), old(self).cursor()) {
                Some((s, e, c)) => r is Ok && r->Ok_0@ == old(self).data().subrange(s, e)
                    && final(self).cursor() == c,
                None => r == Err::<&'a [u8], Error>(Error::InvalidFuncIRI),
            },
    {
        let ghost d = self.data();
        self.skip_spaces();
        let kw = "url(".as_bytes();
        if self.at_end() || !self.starts_with(kw) {
            return Err(Error::InvalidFuncIRI);
        }
        self.advance(kw.len());
        proof {
            lemma_spaces_end(d, self.cursor());
        }
        self.skip_spaces();
        if !self.is_curr_byte_eq('#' as u8) {
            return Err(Error::InvalidFuncIRI);
        }
        self.advance(1);
        let start = self.pos();
        proof {
            lemma_until_end(d, start as int, seq![32u8, 41u8]);
        }
        let stops = [' ' as u8, ')' as u8];
        assert(stops@ =~= seq![32u8, 41u8]);
        self.skip_until(&stops);
        let end = self.pos();
        let link = self.slice_back(start);
        proof {
            lemma_spaces_end(d, end as int);
        }
        self.skip_spaces();
        if !self.is_curr_byte_eq(')' as u8) || end == start {
            return Err(Error::InvalidFuncIRI);
        }
        self.advance(1);
        Ok(link)
    }
}

} // verus!
