use vstd::prelude::*;
use crate::chunk::{
    Chunk, ParseError, chunk_bytes, parse_chunk_spec, be_value, lemma_be_round_trip,
    lemma_chunk_round_trip, push_all, read_be_u32,
};
use crate::chunk_type::code_text;

verus! {

/// A record as the model sees it: type bytes and payload.
pub type Record = (Seq<u8>, Seq<u8>);

/// The eight bytes that open every container.
pub open spec fn png_signature() -> Seq<u8> {
    seq![137u8, 80, 78, 71, 13, 10, 26, 10]
}

/// The records of `m` laid end to end.
pub open spec fn records_bytes(m: Seq<Record>) -> Seq<u8>
    decreases m.len(),
{
    if m.len() == 0 {
        Seq::empty()
    } else {
        chunk_bytes(m[0].0, m[0].1) + records_bytes(m.drop_first())
    }
}

/// The serialized container: signature, then each record in order.
pub open spec fn png_bytes(m: Seq<Record>) -> Seq<u8> {
    png_signature() + records_bytes(m)
}

#[verifier::opaque]
/// What reading `s` as a run of records gives: each record's size comes from
/// its length field, and a stream that ends inside a record is truncated.
pub open spec fn parse_records_spec(s: Seq<u8>) -> Result<Seq<Record>, ParseError>
    decreases s.len(),
{
    if s.len() == 0 {
        Ok(Seq::empty())
    } else if s.len() < 4 || s.len() < be_value(s.subrange(0, 4)) + 12 {
        Err(ParseError::Truncated)
    } else {
        let end = be_value(s.subrange(0, 4)) + 12;
        match parse_chunk_spec(s.subrange(0, end)) {
            Err(e) => Err(e),
            Ok(c) => match parse_records_spec(s.subrange(end, s.len() as int)) {
                Err(e) => Err(e),
                Ok(rest) => Ok(seq![c] + rest),
            },
        }
    }
}

/// What parsing `s` as a whole container gives.
pub open spec fn parse_png_spec(s: Seq<u8>) -> Result<Seq<Record>, ParseError> {
    if s.len() < 8 || s.subrange(0, 8) != png_signature() {
        Err(ParseError::BadSignature)
    } else {
        parse_records_spec(s.subrange(8, s.len() as int))
    }
}

/// The record's type reads as `code`.
pub open spec fn type_matches(r: Record, code: Seq<char>) -> bool {
    code_text(r.0) == code
}

/// `i` is the first position whose record's type reads as `code`.
pub open spec fn is_first_match(m: Seq<Record>, code: Seq<char>, i: int) -> bool {
    &&& 0 <= i < m.len()
    &&& type_matches(m[i], code)
    &&& forall|j: int| 0 <= j < i ==> !type_matches(#[trigger] m[j], code)
}

/// No record's type reads as `code`.
pub open spec fn no_match(m: Seq<Record>, code: Seq<char>) -> bool {
    forall|j: int| 0 <= j < m.len() ==> !type_matches(#[trigger] m[j], code)
}

/// Every payload's length fits the 32-bit length field.
pub open spec fn lengths_fit(m: Seq<Record>) -> bool {
    forall|j: int| 0 <= j < m.len() ==> (#[trigger] m[j]).1.len() <= u32::MAX
}

/// The model of one record.
pub open spec fn record_of(c: Chunk) -> Record {
    (c.ty(), c.payload())
}

proof fn lemma_records_bytes_push(m: Seq<Record>, r: Record)
    ensures
        records_bytes(m.push(r)) == records_bytes(m) + chunk_bytes(r.0, r.1),
    decreases m.len(),
{
    if m.len() == 0 {
        assert(m.push(r).drop_first() =~= Seq::<Record>::empty());
        assert(m.push(r)[0] == r);
        assert(records_bytes(m.push(r).drop_first()) == Seq::<u8>::empty());
        assert(records_bytes(m.push(r)) =~= records_bytes(m) + chunk_bytes(r.0, r.1));
    } else {
        lemma_records_bytes_push(m.drop_first(), r);
        assert(m.push(r).drop_first() =~= m.drop_first().push(r));
        assert(m.push(r)[0] == m[0]);
        let h = chunk_bytes(m[0].0, m[0].1);
        assert(records_bytes(m.push(r)) == h + records_bytes(m.drop_first().push(r)));
        assert(records_bytes(m) == h + records_bytes(m.drop_first()));
        assert(h + (records_bytes(m.drop_first()) + chunk_bytes(r.0, r.1)) =~= (h + records_bytes(
            m.drop_first(),
        )) + chunk_bytes(r.0, r.1));
    }
}

/// Reading a run of records one record at a time.
proof fn lemma_records_step(s: Seq<u8>)
    requires
        s.len() >= 4,
        s.len() >= be_value(s.subrange(0, 4)) + 12,
    ensures
        ({
            let end = be_value(s.subrange(0, 4)) + 12;
            parse_records_spec(s) == match parse_chunk_spec(s.subrange(0, end)) {
                Err(e) => Err(e),
                Ok(c) => match parse_records_spec(s.subrange(end, s.len() as int)) {
                    Err(e) => Err(e),
                    Ok(rest) => Ok(seq![c] + rest),
                },
            }
        }),
{
    reveal(parse_records_spec);
}

proof fn lemma_records_round_trip(s: Seq<u8>)
    requires
        parse_records_spec(s) is Ok,
    ensures
        records_bytes(parse_records_spec(s)->Ok_0) == s,
        lengths_fit(parse_records_spec(s)->Ok_0),
    decreases s.len(),
{
    reveal(parse_records_spec);
    if s.len() == 0 {
        assert(records_bytes(Seq::<Record>::empty()) =~= s);
    } else {
        let end = be_value(s.subrange(0, 4)) + 12;
        let head = s.subrange(0, end);
        let tail = s.subrange(end, s.len() as int);
        lemma_chunk_round_trip(head);
        lemma_records_round_trip(tail);
        let c = parse_chunk_spec(head)->Ok_0;
        let rest = parse_records_spec(tail)->Ok_0;
        let m = seq![c] + rest;
        assert(parse_records_spec(s)->Ok_0 == m);
        assert(m.drop_first() =~= rest);
        assert(m[0] == c);
        assert(head + tail =~= s);
        assert forall|j: int| 0 <= j < m.len() implies (#[trigger] m[j]).1.len() <= u32::MAX by {
            if j > 0 {
                assert(m[j] == rest[j - 1]);
            }
        }
    }
}

/// Serializing a container parsed from `b` gives back exactly `b`.
pub proof fn lemma_round_trip(b: Seq<u8>)
    requires
        parse_png_spec(b) is Ok,
    ensures
        png_bytes(parse_png_spec(b)->Ok_0) == b,
{
    lemma_records_round_trip(b.subrange(8, b.len() as int));
    assert(b.subrange(0, 8) + b.subrange(8, b.len() as int) =~= b);
}

/// There is at most one first match.
pub proof fn lemma_first_match_unique(m: Seq<Record>, code: Seq<char>, i: int, j: int)
    requires
        is_first_match(m, code, i),
        is_first_match(m, code, j),
    ensures
        i == j,
{
    if i < j {
        assert(!type_matches(m[i], code));
    } else if j < i {
        assert(!type_matches(m[j], code));
    }
}

/// Appending a record whose type reads as `code` to records of which none
/// does makes it the first match, with its payload; removing that match
/// gives back the records as they were, again with none that matches.
pub proof fn lemma_append_find_remove(m: Seq<Record>, ty: Seq<u8>, p: Seq<u8>, code: Seq<char>)
    requires
        code_text(ty) == code,
        no_match(m, code),
    ensures
        is_first_match(m.push((ty, p)), code, m.len() as int),
        m.push((ty, p))[m.len() as int].1 == p,
        m.push((ty, p)).remove(m.len() as int) == m,
        no_match(m.push((ty, p)).remove(m.len() as int), code),
{
    let m1 = m.push((ty, p));
    assert forall|j: int| 0 <= j < m.len() implies !type_matches(#[trigger] m1[j], code) by {
        assert(m1[j] == m[j]);
    }
    assert(m1.remove(m.len() as int) =~= m);
}

/// With two records of the same type appended in turn to records of which
/// none has that type, the first appended is found; once it is removed, the
/// second is.
pub proof fn lemma_duplicate_type_first_wins(
    m: Seq<Record>,
    ty: Seq<u8>,
    first: Seq<u8>,
    second: Seq<u8>,
    code: Seq<char>,
)
    requires
        code_text(ty) == code,
        no_match(m, code),
    ensures
        ({
            let m2 = m.push((ty, first)).push((ty, second));
            let k = m.len() as int;
            &&& is_first_match(m2, code, k)
            &&& m2[k].1 == first
            &&& is_first_match(m2.remove(k), code, k)
            &&& m2.remove(k)[k].1 == second
        }),
{
    let m2 = m.push((ty, first)).push((ty, second));
    let k = m.len() as int;
    assert forall|j: int| 0 <= j < k implies !type_matches(#[trigger] m2[j], code) by {
        assert(m2[j] == m[j]);
    }
    assert(m2.remove(k) =~= m.push((ty, second)));
    lemma_append_find_remove(m, ty, second, code);
}

/// A container: the fixed signature and an ordered run of records.
pub struct Png {
    chunks: Vec<Chunk>,
}

impl View for Png {
    type V = Seq<Record>;

    closed spec fn view(&self) -> Seq<Record> {
        self.chunks@.map_values(|c: Chunk| record_of(c))
    }
}

impl Png {
    #[verifier::type_invariant]
    spec fn inv(self) -> bool {
        lengths_fit(self@)
    }

    /// The eight signature bytes.
    pub fn header() -> (r: [u8; 8])
        ensures
            r@ == png_signature(),
    {
        let r: [u8; 8] = [137, 80, 78, 71, 13, 10, 26, 10];
        assert(r@ =~= png_signature());
        r
    }

    /// A container holding `chunks` in order.
    pub fn from_chunks(chunks: Vec<Chunk>) -> (r: Png)
        requires
            lengths_fit(chunks@.map_values(|c: Chunk| record_of(c))),
        ensures
            r@ == chunks@.map_values(|c: Chunk| record_of(c)),
    {
        Png { chunks }
    }

    /// The records, in order.
    pub fn chunks(&self) -> (r: &[Chunk])
        ensures
            r@.map_values(|c: Chunk| record_of(c)) == self@,
    {
        self.chunks.as_slice()
    }

    /// Adds `chunk` at the end.
    pub fn append_chunk(&mut self, chunk: Chunk)
        requires
            chunk.payload().len() <= u32::MAX,
        ensures
            final(self)@ == old(self)@.push(record_of(chunk)),
    {
        let mut taken = Png { chunks: Vec::new() };
        std::mem::swap(self, &mut taken);
        proof {
            use_type_invariant(&taken);
        }
        let ghost rc = record_of(chunk);
        let Png { mut chunks } = taken;
        chunks.push(chunk);
        assert(chunks@.map_values(|c: Chunk| record_of(c)) =~= old(self)@.push(rc));
        *self = Png { chunks };
    }

    fn first_index(&self, code: &str) -> (r: Option<usize>)
        ensures
            r is None <==> no_match(self@, code@),
            r matches Some(i) ==> is_first_match(self@, code@, i as int),
    {
        let mut i: usize = 0;
        while i < self.chunks.len()
            invariant
                0 <= i <= self@.len(),
                self@.len() == self.chunks@.len(),
                forall|j: int| 0 <= j < i ==> !type_matches(#[trigger] self@[j], code@),
            decreases self.chunks@.len() - i,
        {
            assert(self@[i as int] == record_of(self.chunks@[i as int]));
            if self.chunks[i].chunk_type.matches_text(code) {
                return Some(i);
            }
            i = i + 1;
        }
        None
    }

    /// The first record whose type reads as `code`, if any.
    pub fn chunk_by_type(&self, code: &str) -> (r: Option<&Chunk>)
        ensures
            r is None <==> no_match(self@, code@),
            r matches Some(c) ==> exists|i: int|
                is_first_match(self@, code@, i) && self@[i] == record_of(*c),
    {
        match self.first_index(code) {
            Some(i) => Some(&self.chunks[i]),
            None => None,
        }
    }

    /// Removes and returns the first record whose type reads as `code`; fails
    /// when there is none, leaving the container as it was.
    pub fn remove_chunk(&mut self, code: &str) -> (r: Result<Chunk, ChunkNotFound>)
        ensures
            r is Err <==> no_match(old(self)@, code@),
            r is Err ==> final(self)@ == old(self)@,
            r matches Ok(c) ==> exists|i: int|
                is_first_match(old(self)@, code@, i) && old(self)@[i] == record_of(c)
                    && final(self)@ == old(self)@.remove(i),
    {
        match self.first_index(code) {
            Some(i) => {
                let mut taken = Png { chunks: Vec::new() };
                std::mem::swap(self, &mut taken);
                proof {
                    use_type_invariant(&taken);
                }
                let Png { mut chunks } = taken;
                let c = chunks.remove(i);
                assert(chunks@.map_values(|c: Chunk| record_of(c)) =~= old(self)@.remove(i as int));
                *self = Png { chunks };
                Ok(c)
            },
            None => Err(ChunkNotFound),
        }
    }

    /// The serialized container: the signature, then each record's bytes.
    pub fn as_bytes(&self) -> (r: Vec<u8>)
        ensures
            r@ == png_bytes(self@),
    {
        proof {
            use_type_invariant(self);
        }
        let header = Png::header();
        let mut out: Vec<u8> = Vec::new();
        push_all(&mut out, &header);
        let mut i: usize = 0;
        while i < self.chunks.len()
            invariant
                0 <= i <= self@.len(),
                self@.len() == self.chunks@.len(),
                lengths_fit(self@),
                out@ == png_signature() + records_bytes(self@.subrange(0, i as int)),
            decreases self.chunks@.len() - i,
        {
            let c = &self.chunks[i];
            assert(self@[i as int] == record_of(*c));
            let bytes = c.as_bytes();
            proof {
                lemma_records_bytes_push(self@.subrange(0, i as int), self@[i as int]);
                assert(self@.subrange(0, i as int).push(self@[i as int]) =~= self@.subrange(
                    0,
                    i + 1,
                ));
            }
            push_all(&mut out, bytes.as_slice());
            i = i + 1;
        }
        assert(self@.subrange(0, self@.len() as int) =~= self@);
        out
    }

    /// Parses a whole container: the signature, then records up to the exact
    /// end of the bytes.
    pub fn try_from(bytes: &[u8]) -> (r: Result<Png, ParseError>)
        ensures
            r.is_ok() <==> parse_png_spec(bytes@).is_ok(),
            r matches Ok(p) ==> parse_png_spec(bytes@) == Ok::<Seq<Record>, ParseError>(p@)
                && lengths_fit(p@),
            r matches Err(e) ==> parse_png_spec(bytes@) == Err::<Seq<Record>, ParseError>(e),
            bytes@.len() < 8 || bytes@.subrange(0, 8) != png_signature() ==> r == Err::<
                Png,
                ParseError,
            >(ParseError::BadSignature),
    {
        let n = bytes.len();
        let header = Png::header();
        if n < 8 {
            return Err(ParseError::BadSignature);
        }
        let mut k: usize = 0;
        while k < 8
            invariant
                0 <= k <= 8,
                n == bytes@.len(),
                n >= 8,
                header@ == png_signature(),
                forall|j: int| 0 <= j < k ==> bytes@[j] == #[trigger] png_signature()[j],
            decreases 8 - k,
        {
            if bytes[k] != header[k] {
                assert(bytes@.subrange(0, 8)[k as int] != png_signature()[k as int]);
                return Err(ParseError::BadSignature);
            }
            k = k + 1;
        }
        assert(bytes@.subrange(0, 8) =~= png_signature());
        let ghost all = bytes@.subrange(8, n as int);
        let mut chunks: Vec<Chunk> = Vec::new();
        let mut pos: usize = 8;
        while pos < n
            invariant
                8 <= pos <= n,
                n == bytes@.len(),
                bytes@.subrange(0, 8) == png_signature(),
                all == bytes@.subrange(8, n as int),
                lengths_fit(chunks@.map_values(|c: Chunk| record_of(c))),
                parse_records_spec(all) == match parse_records_spec(
                    bytes@.subrange(pos as int, n as int),
                ) {
                    Ok(rest) => Ok(chunks@.map_values(|c: Chunk| record_of(c)) + rest),
                    Err(e) => Err(e),
                },
            decreases n - pos,
        {
            let ghost s = bytes@.subrange(pos as int, n as int);
            let rem = n - pos;
            if rem < 12 {
                assert(parse_records_spec(s) == Err::<Seq<Record>, ParseError>(
                    ParseError::Truncated,
                )) by {
                    reveal(parse_records_spec);
                }
                return Err(ParseError::Truncated);
            }
            let len = read_be_u32(bytes, pos);
            assert(s.subrange(0, 4) =~= bytes@.subrange(pos as int, pos + 4));
            if len as usize > rem - 12 {
                assert(parse_records_spec(s) == Err::<Seq<Record>, ParseError>(
                    ParseError::Truncated,
                )) by {
                    reveal(parse_records_spec);
                }
                return Err(ParseError::Truncated);
            }
            proof {
                lemma_records_step(s);
            }
            let end = pos + len as usize + 12;
            let ghost head = s.subrange(0, end - pos);
            assert(head =~= bytes@.subrange(pos as int, end as int));
            let c = match Chunk::try_from(&bytes[pos..end]) {
                Ok(c) => c,
                Err(e) => return Err(e),
            };
            proof {
                lemma_be_round_trip(s.subrange(0, 4), 0);
                lemma_chunk_round_trip(head);
                let ghost tail = s.subrange(end - pos, s.len() as int);
                assert(tail =~= bytes@.subrange(end as int, n as int));
                let old_m = chunks@.map_values(|c: Chunk| record_of(c));
                match parse_records_spec(tail) {
                    Ok(rest) => {
                        assert(old_m + (seq![record_of(c)] + rest) =~= old_m.push(record_of(c))
                            + rest);
                    },
                    Err(e) => {},
                }
            }
            let ghost before = chunks@;
            let ghost rc = record_of(c);
            chunks.push(c);
            proof {
                let m = chunks@.map_values(|c: Chunk| record_of(c));
                let m0 = before.map_values(|c: Chunk| record_of(c));
                assert(m =~= m0.push(rc));
                assert forall|j: int| 0 <= j < m.len() implies (#[trigger] m[j]).1.len()
                    <= u32::MAX by {
                    if j < m0.len() {
                        assert(m[j] == m0[j]);
                    }
                }
            }
            pos = end;
        }
        assert(bytes@.subrange(pos as int, n as int) =~= Seq::<u8>::empty());
        assert(parse_records_spec(Seq::<u8>::empty()) == Ok::<Seq<Record>, ParseError>(
            Seq::empty(),
        )) by {
            reveal(parse_records_spec);
        }
        assert(chunks@.map_values(|c: Chunk| record_of(c)) + Seq::<Record>::empty()
            =~= chunks@.map_values(|c: Chunk| record_of(c)));
        Ok(Png { chunks })
    }
}

/// No record of the requested type is present.
#[derive(Debug, Clone, Copy, PartialEq, Eq, Structural)]
pub struct ChunkNotFound;

} // verus!
