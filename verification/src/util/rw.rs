//! Text written into memory, and a text to read that carries its name.

use vstd::prelude::*;

verus! {

/// A text that is written to piece by piece.
pub struct StringBuffer {
    s: String,
}

impl View for StringBuffer {
    type V = Seq<char>;

    closed spec fn view(&self) -> Seq<char> {
        self.s@
    }
}

/// The text that `bytes` encode in UTF-8, where they are valid UTF-8.
pub uninterp spec fn utf8_decode(bytes: Seq<u8>) -> Option<Seq<char>>;

/// The message of the error for bytes that are not valid UTF-8.
pub uninterp spec fn utf8_error(bytes: Seq<u8>) -> Seq<char>;

/// `std::str::from_utf8`. Claims: the text (or the error's message) is a
/// function of the bytes.
#[verifier::external_body]
fn utf8_decode_call(buf: &[u8]) -> (r: Result<String, String>)
    ensures
        match utf8_decode(buf@) {
            Some(t) => r is Ok && r->Ok_0@ == t,
            None => r is Err && r->Err_0@ == utf8_error(buf@),
        },
{
    match std::str::from_utf8(buf) {
        Ok(s) => Ok(s.to_string()),
        Err(e) => Err(e.to_string()),
    }
}

impl StringBuffer {
    pub fn new() -> (r: StringBuffer)
        ensures
            r@ == Seq::<char>::empty(),
    {
        StringBuffer { s: String::new() }
    }

    pub fn as_str(&self) -> (r: &str)
        ensures
            r@ == self@,
    {
        self.s.as_str()
    }

    pub fn clear(&mut self)
        ensures
            final(self)@ == Seq::<char>::empty(),
    {
        self.s = String::new();
    }

    /// Appends the text.
    pub fn write_str(&mut self, t: &str)
        ensures
            final(self)@ == old(self)@ + t@,
    {
        self.s.append(t);
    }

    /// Appends the text that the bytes encode, and gives their count; fails,
    /// leaving the buffer as it was, where they are not valid UTF-8.
    pub fn write(&mut self, buf: &[u8]) -> (r: Result<usize, String>)
        ensures
            match utf8_decode(buf@) {
                Some(t) => r == Ok::<usize, String>(buf@.len() as usize) && final(self)@ == old(
                    self,
                )@ + t,
                None => r is Err && r->Err_0@ == utf8_error(buf@) && final(self)@ == old(self)@,
            },
    {
        match utf8_decode_call(buf) {
            Ok(t) => {
                self.s.append(t.as_str());
                Ok(buf.len())
            },
            Err(e) => Err(e),
        }
    }
}

/// A text to read, with its name: given in memory, or the path of a file.
pub enum DescribedReader {
    Text((String, String)),
    FilePath(String),
}

impl DescribedReader {
    pub fn from_string(desc: String, data: String) -> (r: DescribedReader)
        ensures
            r matches DescribedReader::Text((d, t)) && d@ == desc@ && t@ == data@,
    {
        DescribedReader::Text((desc, data))
    }

    pub fn from_file_path(path: String) -> (r: DescribedReader)
        ensures
            r matches DescribedReader::FilePath(p) && p@ == path@,
    {
        DescribedReader::FilePath(path)
    }

    /// The name: the one given, or the file's path.
    pub fn desc(&self) -> (r: &str)
        ensures
            r@ == match self {
                DescribedReader::Text((d, _)) => d@,
                DescribedReader::FilePath(p) => p@,
            },
    {
        match self {
            DescribedReader::Text((name, _)) => name.as_str(),
            DescribedReader::FilePath(path) => path.as_str(),
        }
    }

    /// The text held in memory (`None` for a file, which the caller reads).
    pub fn text(&self) -> (r: Option<&str>)
        ensures
            match self {
                DescribedReader::Text((_, t)) => r is Some && r->0@ == t@,
                DescribedReader::FilePath(_) => r is None,
            },
    {
        match self {
            DescribedReader::Text((_, text)) => Some(text.as_str()),
            DescribedReader::FilePath(_) => None,
        }
    }
}

} // verus!
