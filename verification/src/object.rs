//! The LC-3 `.obj` object-file format.
//!
//! An object file is a stream of 16-bit big-endian words: the first word is the
//! origin (the load address of the program), and each subsequent word is loaded
//! into consecutive memory locations starting there.
use vstd::prelude::*;

verus! {

/// An assembled LC-3 image.
#[derive(Debug, Clone, PartialEq, Eq)]
pub struct ObjectFile {
    /// The address at which the first word is loaded.
    pub origin: u16,
    /// The program words, loaded consecutively beginning at `origin`.
    pub words: Vec<u16>,
}

/// The reason a byte stream could not be decoded as a `.obj` image.
#[derive(Debug, Clone, Copy, PartialEq, Eq, Structural)]
#[non_exhaustive]
pub enum ObjectError {
    /// The stream was shorter than the single word required for the origin.
    MissingOrigin,
    /// The stream had an odd number of bytes; `.obj` words are 16 bits wide.
    TruncatedWord,
}

/// The description of an object-file error.
pub open spec fn object_error_text(e: ObjectError) -> Seq<char> {
    match e {
        ObjectError::MissingOrigin => "object file is missing its origin word"@,
        ObjectError::TruncatedWord => "object file ends mid-word (odd byte length)"@,
    }
}

impl ObjectError {
    /// The human-readable description of this error.
    pub fn message(&self) -> (r: &'static str)
        ensures
            r@ == object_error_text(*self),
    {
        match self {
            ObjectError::MissingOrigin => "object file is missing its origin word",
            ObjectError::TruncatedWord => "object file ends mid-word (odd byte length)",
        }
    }
}

/// The word spelled by a big-endian byte pair.
pub open spec fn be_word(hi: u8, lo: u8) -> u16 {
    ((hi as int) * 256 + (lo as int)) as u16
}

/// The words a big-endian byte stream spells, two bytes each (a trailing odd
/// byte spells nothing).
pub open spec fn words_of(bytes: Seq<u8>) -> Seq<u16> {
    Seq::new(bytes.len() / 2, |i: int| be_word(bytes[2 * i], bytes[2 * i + 1]))
}

/// The big-endian byte stream of a word sequence, high byte first.
pub open spec fn bytes_of(words: Seq<u16>) -> Seq<u8> {
    Seq::new(
        words.len() * 2,
        |j: int|
            if j % 2 == 0 {
                ((words[j / 2] as int) / 256) as u8
            } else {
                ((words[j / 2] as int) % 256) as u8
            },
    )
}

impl ObjectFile {
    /// What `from_be_bytes` decodes a byte stream to: an origin and the
    /// program words, or the reason it cannot.
    pub open spec fn from_be_bytes_spec(bytes: Seq<u8>) -> Result<(u16, Seq<u16>), ObjectError> {
        if bytes.len() < 2 {
            Err(ObjectError::MissingOrigin)
        } else if bytes.len() % 2 == 1 {
            Err(ObjectError::TruncatedWord)
        } else {
            Ok((words_of(bytes)[0], words_of(bytes).drop_first()))
        }
    }

    /// The whole image as one word stream: the origin, then the program words.
    pub open spec fn stream(self) -> Seq<u16> {
        seq![self.origin] + self.words@
    }

    /// Decodes a big-endian `.obj` byte stream.
    ///
    /// The first word becomes the origin; the rest become the program words.
    /// Returns [`ObjectError::MissingOrigin`] if there is no origin word and
    /// [`ObjectError::TruncatedWord`] if the stream does not divide into whole
    /// 16-bit words.
    pub fn from_be_bytes(bytes: &[u8]) -> (r: Result<ObjectFile, ObjectError>)
        ensures
            bytes@.len() < 2 ==> r == Err::<ObjectFile, ObjectError>(ObjectError::MissingOrigin),
            bytes@.len() >= 2 && bytes@.len() % 2 == 1 ==> r == Err::<ObjectFile, ObjectError>(
                ObjectError::TruncatedWord,
            ),
            bytes@.len() >= 2 && bytes@.len() % 2 == 0 ==> (r matches Ok(o) && o.stream() == words_of(bytes@)),
            r matches Ok(o) ==> ObjectFile::from_be_bytes_spec(bytes@) == Ok::<(u16, Seq<u16>), ObjectError>((o.origin, o.words@)),
            r matches Err(e) ==> ObjectFile::from_be_bytes_spec(bytes@) == Err::<(u16, Seq<u16>), ObjectError>(e),
    {
        if bytes.len() < 2 {
            return Err(ObjectError::MissingOrigin);
        }
        if bytes.len() % 2 != 0 {
            return Err(ObjectError::TruncatedWord);
        }
        let origin: u16 = (bytes[0] as u16) * 256 + (bytes[1] as u16);
        let mut words: Vec<u16> = Vec::new();
        let mut i: usize = 2;
        while i < bytes.len()
            invariant
                2 <= i <= bytes.len(),
                i % 2 == 0,
                bytes.len() % 2 == 0,
                words@.len() == i / 2 - 1,
                forall|k: int| 0 <= k < words@.len() ==> words@[k] == be_word(bytes@[2 * k + 2], bytes@[2 * k + 3]),
            decreases bytes.len() - i,
        {
            let w: u16 = (bytes[i] as u16) * 256 + (bytes[i + 1] as u16);
            words.push(w);
            i += 2;
        }
        let o = ObjectFile { origin, words };
        proof {
            assert(o.stream() =~= words_of(bytes@));
            assert(o.words@ =~= words_of(bytes@).drop_first());
        }
        Ok(o)
    }

    /// Encodes the image as a big-endian `.obj` byte stream: the origin word
    /// followed by each program word.
    pub fn to_be_bytes(&self) -> (r: Vec<u8>)
        ensures
            r@ == bytes_of(self.stream()),
    {
        let mut out: Vec<u8> = Vec::new();
        out.push((self.origin / 256) as u8);
        out.push((self.origin % 256) as u8);
        let mut i: usize = 0;
        while i < self.words.len()
            invariant
                i <= self.words.len(),
                out@ == bytes_of(self.stream().take(i + 1)),
            decreases self.words.len() - i,
        {
            let w = self.words[i];
            out.push((w / 256) as u8);
            out.push((w % 256) as u8);
            i += 1;
            proof {
                assert(out@ =~= bytes_of(self.stream().take(i + 1)));
            }
        }
        proof {
            assert(self.stream().take(i + 1) =~= self.stream());
        }
        out
    }
}

/// Encoding a word stream and decoding the bytes gives the stream back.
pub proof fn lemma_words_bytes_round_trip(words: Seq<u16>)
    ensures
        words_of(bytes_of(words)) == words,
        bytes_of(words).len() == 2 * words.len(),
{
    let b = bytes_of(words);
    assert forall|i: int| 0 <= i < words.len() implies #[trigger] words_of(b)[i] == words[i] by {
        let w = words[i];
        assert(b[2 * i] == ((w as int) / 256) as u8);
        assert(b[2 * i + 1] == ((w as int) % 256) as u8);
    }
    assert(words_of(b) =~= words);
}

/// Decoding an even-length byte stream and encoding the words gives the bytes
/// back.
pub proof fn lemma_bytes_words_round_trip(bytes: Seq<u8>)
    requires
        bytes.len() % 2 == 0,
    ensures
        bytes_of(words_of(bytes)) == bytes,
{
    let w = words_of(bytes);
    assert forall|j: int| 0 <= j < bytes.len() implies #[trigger] bytes_of(w)[j] == bytes[j] by {
        let i = j / 2;
        assert(0 <= i < w.len());
        if j % 2 == 0 {
            assert(j == 2 * i);
        } else {
            assert(j == 2 * i + 1);
        }
    }
    assert(bytes_of(w) =~= bytes);
}

/// An object file survives encoding and decoding unchanged, and a well-formed
/// byte stream survives decoding and encoding unchanged.
pub proof fn lemma_object_round_trip(o: ObjectFile, bytes: Seq<u8>)
    ensures
        bytes_of(o.stream()).len() >= 2,
        bytes_of(o.stream()).len() % 2 == 0,
        words_of(bytes_of(o.stream())) == o.stream(),
        bytes.len() % 2 == 0 ==> bytes_of(words_of(bytes)) == bytes,
{
    lemma_words_bytes_round_trip(o.stream());
    if bytes.len() % 2 == 0 {
        lemma_bytes_words_round_trip(bytes);
    }
}

} // verus!
