use vstd::prelude::*;
use vstd::string::*;
use vstd::utf8::*;
use crate::errors::DocumentError;

verus! {

/// The byte that ends a line.
pub const NEWLINE: u8 = 10;

/// A place in a document: a line, and a byte offset into that line.
#[derive(Clone, Copy, Debug, PartialEq, Eq, Structural)]
pub struct Position {
    pub line: u32,
    pub character: u32,
}

/// A span of a document, from `start` up to `end`.
#[derive(Clone, Copy, Debug, PartialEq, Eq, Structural)]
pub struct Range {
    pub start: Position,
    pub end: Position,
}

/// One edit sent by the editor: new text for a span, or, without a span,
/// new text for the whole document.
#[derive(Clone, Debug, PartialEq, Eq)]
pub struct ContentChange {
    pub range: Option<Range>,
    pub text: String,
}

/// Why a file could not be read.
#[derive(Clone, Copy, Debug, PartialEq, Eq, Structural)]
pub enum ReadFailure {
    NotFound,
    PermissionDenied,
    Other,
}

/// Whether `error` stands for the failure `failure` to read the file at
/// `path`: each kind of failure has its own kind of error, and any other
/// failure carries the message that came with it.
pub open spec fn is_load_error(
    error: DocumentError,
    path: Seq<char>,
    failure: ReadFailure,
    message: String,
) -> bool {
    match failure {
        ReadFailure::NotFound => error matches DocumentError::DocumentNotFound { path: given }
            && given@ == path,
        ReadFailure::PermissionDenied => error matches DocumentError::PermissionDenied {
            path: given,
        } && given@ == path,
        ReadFailure::Other => error matches DocumentError::IOError { path: given, error: text }
            && given@ == path && text == message,
    }
}

/// The error that stands for a failure to read the file at `path`.
pub fn load_error(path: &str, failure: ReadFailure, message: String) -> (error: DocumentError)
    ensures
        is_load_error(error, path@, failure, message),
{
    match failure {
        ReadFailure::NotFound => DocumentError::DocumentNotFound { path: path.to_owned() },
        ReadFailure::PermissionDenied => DocumentError::PermissionDenied { path: path.to_owned() },
        ReadFailure::Other => DocumentError::IOError { path: path.to_owned(), error: message },
    }
}

/// The offsets at which lines start, looking only at the first `n` bytes:
/// offset 0, then one past every newline among them, in rising order.
pub open spec fn line_starts_within(bytes: Seq<u8>, n: int) -> Seq<int>
    decreases n,
{
    if n <= 0 {
        seq![0int]
    } else if bytes[n - 1] == NEWLINE {
        line_starts_within(bytes, n - 1).push(n)
    } else {
        line_starts_within(bytes, n - 1)
    }
}

/// The offsets at which the lines of `bytes` start.
pub open spec fn line_starts(bytes: Seq<u8>) -> Seq<int> {
    line_starts_within(bytes, bytes.len() as int)
}

/// Shape of the line index of a prefix: it starts with 0, rises strictly,
/// stays within the prefix, and holds one entry more than the prefix has
/// newlines.
pub proof fn lemma_line_starts_within(bytes: Seq<u8>, n: int)
    requires
        0 <= n <= bytes.len(),
    ensures
        line_starts_within(bytes, n).len() == 1 + bytes.take(n).to_multiset().count(NEWLINE),
        line_starts_within(bytes, n)[0] == 0,
        forall|k: int|
            0 <= k < line_starts_within(bytes, n).len() ==> 0 <= #[trigger] line_starts_within(
                bytes,
                n,
            )[k] <= n,
        forall|j: int, k: int|
            0 <= j < k < line_starts_within(bytes, n).len() ==> line_starts_within(bytes, n)[j]
                < line_starts_within(bytes, n)[k],
    decreases n,
{
    broadcast use vstd::seq_lib::group_to_multiset_ensures;

    if n <= 0 {
        assert(bytes.take(0) =~= Seq::<u8>::empty());
    } else {
        lemma_line_starts_within(bytes, n - 1);
        assert(bytes.take(n) =~= bytes.take(n - 1).push(bytes[n - 1]));
    }
}

/// An offset starts a line exactly if it is 0 or follows a newline.
pub proof fn lemma_line_starts_members(bytes: Seq<u8>, n: int, offset: int)
    requires
        0 <= n <= bytes.len(),
    ensures
        line_starts_within(bytes, n).contains(offset) <==> (offset == 0 || (0 < offset <= n
            && bytes[offset - 1] == NEWLINE)),
    decreases n,
{
    let starts = line_starts_within(bytes, n);
    if n <= 0 {
        assert(starts[0] == 0);
    } else {
        let before = line_starts_within(bytes, n - 1);
        lemma_line_starts_members(bytes, n - 1, offset);
        if bytes[n - 1] == NEWLINE {
            assert(starts =~= before.push(n));
            if before.contains(offset) {
                let k = choose|k: int| 0 <= k < before.len() && before[k] == offset;
                assert(starts[k] == offset);
            }
            if offset == n {
                assert(starts[before.len() as int] == offset);
            }
        }
    }
}

/// Every position after a one-byte character is a character boundary.
pub proof fn lemma_boundary_after_ascii(bytes: Seq<u8>, i: int)
    requires
        valid_utf8(bytes),
        0 <= i < bytes.len(),
        bytes[i] <= 0x7f,
    ensures
        is_char_boundary(bytes, i + 1),
    decreases bytes.len(),
{
    let first = length_of_first_scalar(bytes);
    let rest = pop_first_scalar(bytes);
    if i == 0 {
        assert(is_char_boundary(rest, 0));
    } else if i < first {
        assert(is_continuation_byte(bytes[i]));
    } else {
        assert(rest[i - first] == bytes[i]);
        lemma_boundary_after_ascii(rest, i - first);
    }
}

/// Every line of valid UTF-8 starts on a character boundary.
pub proof fn lemma_line_starts_on_boundaries(bytes: Seq<u8>, k: int)
    requires
        valid_utf8(bytes),
        0 <= k < line_starts(bytes).len(),
    ensures
        0 <= line_starts(bytes)[k] <= bytes.len(),
        is_char_boundary(bytes, line_starts(bytes)[k]),
{
    let n = bytes.len() as int;
    let offset = line_starts(bytes)[k];
    lemma_line_starts_within(bytes, n);
    lemma_line_starts_members(bytes, n, offset);
    if offset != 0 {
        lemma_boundary_after_ascii(bytes, offset - 1);
    }
}

/// A boundary of the whole text is a boundary of what follows an earlier
/// boundary.
pub proof fn lemma_boundary_in_suffix(bytes: Seq<u8>, a: int, b: int)
    requires
        valid_utf8(bytes),
        0 <= a <= b <= bytes.len(),
        is_char_boundary(bytes, a),
        is_char_boundary(bytes, b),
    ensures
        valid_utf8(bytes.subrange(a, bytes.len() as int)),
        is_char_boundary(bytes.subrange(a, bytes.len() as int), b - a),
{
    let rest = bytes.subrange(a, bytes.len() as int);
    valid_utf8_split(bytes, a);
    if b == a {
    } else if b == bytes.len() {
        is_char_boundary_start_end_of_seq(rest);
    } else {
        is_char_boundary_iff_not_is_continuation_byte(bytes, b);
        is_char_boundary_iff_not_is_continuation_byte(rest, b - a);
    }
}

/// The encoding of two texts in a row is the two encodings in a row.
pub proof fn lemma_encode_concat(a: Seq<char>, b: Seq<char>)
    ensures
        encode_utf8(a + b) == encode_utf8(a) + encode_utf8(b),
    decreases a.len(),
{
    if a.len() == 0 {
        assert(a + b =~= b);
        assert(encode_utf8(a) + encode_utf8(b) =~= encode_utf8(b));
    } else {
        lemma_encode_concat(a.drop_first(), b);
        assert((a + b).drop_first() =~= a.drop_first() + b);
        assert(encode_utf8(a + b) =~= encode_utf8(a) + encode_utf8(b));
    }
}

/// Where line `line` of `bytes` starts and ends; beyond the last line both
/// are the end of the text.
pub open spec fn line_span(bytes: Seq<u8>, line: int) -> (int, int) {
    let starts = line_starts(bytes);
    (
        if 0 <= line < starts.len() {
            starts[line]
        } else {
            bytes.len() as int
        },
        if 0 <= line + 1 < starts.len() {
            starts[line + 1]
        } else {
            bytes.len() as int
        },
    )
}

/// Line `line` of `text`, with the newline that ends it; the empty text
/// where there is no such line.
pub open spec fn line_text(text: Seq<char>, line: int) -> Seq<char> {
    decode_utf8(
        encode_utf8(text).subrange(
            line_span(encode_utf8(text), line).0,
            line_span(encode_utf8(text), line).1,
        ),
    )
}

/// The byte index that a position stands for: the start of its line, or the
/// end of the text where there is no such line, plus its offset.
pub open spec fn position_index(bytes: Seq<u8>, position: Position) -> int {
    line_span(bytes, position.line as int).0 + position.character
}

/// Whether a span can be replaced: it runs forward, ends within the text,
/// and cuts no character in two.
pub open spec fn range_fits(bytes: Seq<u8>, range: Range) -> bool {
    let start = position_index(bytes, range.start);
    let end = position_index(bytes, range.end);
    &&& start <= end <= bytes.len()
    &&& is_char_boundary(bytes, start)
    &&& is_char_boundary(bytes, end)
}

/// `bytes` with the span from `start` to `end` replaced by `insert`.
pub open spec fn spliced(bytes: Seq<u8>, start: int, end: int, insert: Seq<u8>) -> Seq<u8> {
    bytes.subrange(0, start) + insert + bytes.subrange(end, bytes.len() as int)
}

/// The text that a change leaves behind, or `None` where its span does not
/// fit the text.
pub open spec fn text_after(text: Seq<char>, change: ContentChange) -> Option<Seq<char>> {
    let bytes = encode_utf8(text);
    match change.range {
        None => Some(change.text@),
        Some(range) => if range_fits(bytes, range) {
            Some(
                decode_utf8(
                    spliced(
                        bytes,
                        position_index(bytes, range.start),
                        position_index(bytes, range.end),
                        encode_utf8(change.text@),
                    ),
                ),
            )
        } else {
            None
        },
    }
}

/// What a document is, apart from how it is stored.
pub struct DocumentModel {
    pub uri: Seq<char>,
    pub version: int,
    pub text: Seq<char>,
}

/// The document after a change, or `None` where the change is refused.
pub open spec fn document_after(doc: DocumentModel, change: ContentChange) -> Option<
    DocumentModel,
> {
    match text_after(doc.text, change) {
        Some(text) => Some(DocumentModel { uri: doc.uri, version: doc.version + 1, text }),
        None => None,
    }
}

/// An open file: its identifier, a version that counts the changes applied,
/// the text, and the index of the offsets at which its lines start.
#[derive(Debug)]
pub struct TextDocument {
    version: i32,
    uri: String,
    content: String,
    line_offsets: Vec<usize>,
}

impl View for TextDocument {
    type V = DocumentModel;

    closed spec fn view(&self) -> DocumentModel {
        DocumentModel { uri: self.uri@, version: self.version as int, text: self.content@ }
    }
}

impl Clone for TextDocument {
    fn clone(&self) -> (copy: Self)
        ensures
            copy@ == self@,
            self.wf() ==> copy.wf(),
    {
        TextDocument {
            version: self.version,
            uri: self.uri.clone(),
            content: self.content.clone(),
            line_offsets: self.line_offsets.clone(),
        }
    }
}

impl TextDocument {
    /// The line index agrees with the text, and the version is at least 1.
    pub closed spec fn wf(&self) -> bool {
        &&& self.version >= 1
        &&& self.line_offsets@.len() == line_starts(encode_utf8(self.content@)).len()
        &&& forall|k: int|
            0 <= k < self.line_offsets@.len() ==> #[trigger] self.line_offsets@[k] as int
                == line_starts(encode_utf8(self.content@))[k]
    }

    /// The line index as the mathematical sequence it stands for.
    pub closed spec fn offsets(&self) -> Seq<int> {
        self.line_offsets@.map_values(|offset: usize| offset as int)
    }

    /// In a well-formed document the line index is the one its text gives.
    pub proof fn lemma_offsets(&self)
        requires
            self.wf(),
        ensures
            self.offsets() == line_starts(encode_utf8(self@.text)),
    {
        assert(self.offsets() =~= line_starts(encode_utf8(self.content@)));
    }

    /// A fresh document at version 1 holding `content`.
    pub fn new(uri: &str, content: String) -> (doc: Self)
        ensures
            doc.wf(),
            doc@ == (DocumentModel { uri: uri@, version: 1, text: content@ }),
    {
        let line_offsets = Self::calculate_line_offsets(content.as_str());
        TextDocument { version: 1, uri: uri.to_owned(), content, line_offsets }
    }

    /// The document for the file at `path`, of which `read` is what reading
    /// it gave: at version 1 with the text read, or the error that stands
    /// for the failure.
    pub fn build_from_path(path: &str, read: Result<String, (ReadFailure, String)>) -> (built:
        Result<Self, DocumentError>)
        ensures
            match read {
                Ok(content) => built matches Ok(doc) && doc.wf() && doc@ == (DocumentModel {
                    uri: path@,
                    version: 1,
                    text: content@,
                }),
                Err((failure, message)) => built matches Err(error) && is_load_error(
                    error,
                    path@,
                    failure,
                    message,
                ),
            },
    {
        match read {
            Ok(content) => Ok(Self::new(path, content)),
            Err((failure, message)) => Err(load_error(path, failure, message)),
        }
    }

    pub fn get_uri(&self) -> (uri: &str)
        ensures
            uri@ == self@.uri,
    {
        self.uri.as_str()
    }

    pub fn get_text(&self) -> (text: &str)
        ensures
            text@ == self@.text,
    {
        self.content.as_str()
    }

    pub fn version(&self) -> (version: i32)
        ensures
            version == self@.version,
    {
        self.version
    }

    /// The offsets at which the lines of the document start.
    pub fn line_offsets(&self) -> (offsets: &Vec<usize>)
        requires
            self.wf(),
        ensures
            offsets@.map_values(|offset: usize| offset as int) == line_starts(
                encode_utf8(self@.text),
            ),
    {
        proof {
            self.lemma_offsets();
        }
        &self.line_offsets
    }

    /// Line `line` of the text, with the newline that ends it; the empty
    /// string where the text has no such line.
    pub fn get_line(&self, line: usize) -> (text: &str)
        requires
            self.wf(),
        ensures
            text.spec_bytes() == encode_utf8(self@.text).subrange(
                line_span(encode_utf8(self@.text), line as int).0,
                line_span(encode_utf8(self@.text), line as int).1,
            ),
            text@ == line_text(self@.text, line as int),
    {
        broadcast use {encode_utf8_valid_utf8, encode_utf8_decode_utf8};

        let whole = self.content.as_str();
        let len = whole.as_bytes().len();
        let count = self.line_offsets.len();
        let ghost bytes = encode_utf8(self.content@);
        proof {
            lemma_line_starts_within(bytes, bytes.len() as int);
            is_char_boundary_start_end_of_seq(bytes);
        }
        let start = if line < count {
            proof {
                lemma_line_starts_on_boundaries(bytes, line as int);
            }
            self.line_offsets[line]
        } else {
            len
        };
        let end = if line < count - 1 {
            proof {
                lemma_line_starts_on_boundaries(bytes, line + 1);
            }
            self.line_offsets[line + 1]
        } else {
            len
        };
        proof {
            lemma_boundary_in_suffix(bytes, start as int, end as int);
        }
        let (_, rest) = whole.split_at(start);
        let (piece, _) = rest.split_at(end - start);
        proof {
            assert(piece.spec_bytes() =~= bytes.subrange(start as int, end as int));
        }
        piece
    }

    /// The offsets at which the lines of `text` start: 0, then one past each
    /// newline.
    pub fn calculate_line_offsets(text: &str) -> (offsets: Vec<usize>)
        ensures
            offsets@.len() == line_starts(encode_utf8(text@)).len(),
            forall|k: int|
                0 <= k < offsets@.len() ==> #[trigger] offsets@[k] as int == line_starts(
                    encode_utf8(text@),
                )[k],
    {
        let bytes = text.as_bytes();
        let len = bytes.len();
        let mut offsets: Vec<usize> = Vec::new();
        offsets.push(0);
        let mut i: usize = 0;
        while i < len
            invariant
                bytes@ == encode_utf8(text@),
                len == bytes@.len(),
                0 <= i <= len,
                offsets@.len() == line_starts_within(bytes@, i as int).len(),
                forall|k: int|
                    0 <= k < offsets@.len() ==> #[trigger] offsets@[k] as int
                        == line_starts_within(bytes@, i as int)[k],
            decreases len - i,
        {
            if bytes[i] == NEWLINE {
                offsets.push(i + 1);
            }
            i += 1;
        }
        offsets
    }

    /// The byte index that `position` stands for, or `None` where it lies
    /// beyond what an index can hold.
    fn position_to_index(&self, position: Position) -> (index: Option<usize>)
        requires
            self.wf(),
        ensures
            match index {
                Some(i) => i == position_index(encode_utf8(self@.text), position),
                None => position_index(encode_utf8(self@.text), position) > usize::MAX,
            },
            position_index(encode_utf8(self@.text), position) >= 0,
    {
        let ghost bytes = encode_utf8(self.content@);
        proof {
            lemma_line_starts_within(bytes, bytes.len() as int);
        }
        let line = position.line as usize;
        let line_offset = if line < self.line_offsets.len() {
            self.line_offsets[line]
        } else {
            self.content.as_str().as_bytes().len()
        };
        line_offset.checked_add(position.character as usize)
    }

    /// The two byte indices of `range`, or the error that refuses it.
    fn validate_range(&self, range: Range) -> (span: Result<(usize, usize), DocumentError>)
        requires
            self.wf(),
        ensures
            match span {
                Ok((start, end)) => {
                    &&& range_fits(encode_utf8(self@.text), range)
                    &&& start == position_index(encode_utf8(self@.text), range.start)
                    &&& end == position_index(encode_utf8(self@.text), range.end)
                },
                Err(e) => {
                    &&& !range_fits(encode_utf8(self@.text), range)
                    &&& e == (DocumentError::InvalidRange { range })
                },
            },
    {
        let whole = self.content.as_str();
        let len = whole.as_bytes().len();
        match (self.position_to_index(range.start), self.position_to_index(range.end)) {
            (Some(start), Some(end)) => {
                if start > end || end > len {
                    Err(DocumentError::InvalidRange { range })
                } else if !whole.is_char_boundary(start) || !whole.is_char_boundary(end) {
                    Err(DocumentError::InvalidRange { range })
                } else {
                    Ok((start, end))
                }
            },
            _ => Err(DocumentError::InvalidRange { range }),
        }
    }

    /// Applies one change. Without a span the whole text is replaced; with
    /// one, the span is, provided it fits the text. A change that is applied
    /// raises the version by one; one that is refused leaves the document as
    /// it was.
    pub fn apply_change(&mut self, change: &ContentChange) -> (done: Result<(), DocumentError>)
        requires
            old(self).wf(),
            old(self)@.version < i32::MAX,
        ensures
            final(self).wf(),
            match document_after(old(self)@, *change) {
                Some(doc) => done is Ok && final(self)@ == doc,
                None => {
                    &&& change.range is Some
                    &&& done matches Err(DocumentError::InvalidRange { range })
                    &&& Some(range) == change.range
                    &&& *final(self) == *old(self)
                },
            },
            change.range is None ==> done is Ok && final(self)@.text == change.text@,
            done is Ok ==> final(self)@.version == old(self)@.version + 1 && final(self)@.uri
                == old(self)@.uri,
            done is Ok ==> change.range is Some ==> encode_utf8(final(self)@.text) == spliced(
                encode_utf8(old(self)@.text),
                position_index(encode_utf8(old(self)@.text), change.range->0.start),
                position_index(encode_utf8(old(self)@.text), change.range->0.end),
                encode_utf8(change.text@),
            ),
    {
        broadcast use {encode_utf8_valid_utf8, encode_utf8_decode_utf8};

        let content = match change.range {
            Some(range) => {
                let (start, end) = match self.validate_range(range) {
                    Ok(span) => span,
                    Err(e) => {
                        return Err(e);
                    },
                };
                let ghost bytes = encode_utf8(self.content@);
                proof {
                    lemma_boundary_in_suffix(bytes, start as int, end as int);
                }
                let (head, rest) = self.content.as_str().split_at(start);
                let (_, tail) = rest.split_at(end - start);
                let mut content = head.to_owned();
                content.append(change.text.as_str());
                content.append(tail);
                proof {
                    lemma_encode_concat(head@, change.text@);
                    lemma_encode_concat(head@ + change.text@, tail@);
                    assert(tail.spec_bytes() =~= bytes.subrange(end as int, bytes.len() as int));
                    assert(encode_utf8(content@) =~= spliced(
                        bytes,
                        start as int,
                        end as int,
                        encode_utf8(change.text@),
                    ));
                }
                content
            },
            None => change.text.clone(),
        };
        self.line_offsets = Self::calculate_line_offsets(content.as_str());
        self.content = content;
        self.version = self.version + 1;
        Ok(())
    }
}

/// A change without a span leaves exactly its own text, and raises the
/// version by exactly one.
pub proof fn lemma_whole_replace(doc: DocumentModel, change: ContentChange)
    requires
        change.range is None,
    ensures
        document_after(doc, change) == Some(
            DocumentModel { uri: doc.uri, version: doc.version + 1, text: change.text@ },
        ),
{
}

/// Putting text in at an index and then taking out the span it fills gives
/// back the bytes there were, and with them the same line index.
pub proof fn lemma_insert_then_remove(bytes: Seq<u8>, at: int, inserted: Seq<u8>)
    requires
        0 <= at <= bytes.len(),
    ensures
        spliced(spliced(bytes, at, at, inserted), at, at + inserted.len(), Seq::empty()) == bytes,
        line_starts(
            spliced(spliced(bytes, at, at, inserted), at, at + inserted.len(), Seq::empty()),
        ) == line_starts(bytes),
{
    assert(spliced(spliced(bytes, at, at, inserted), at, at + inserted.len(), Seq::empty())
        =~= bytes);
}

/// An insertion at a position, followed by a change that removes the span
/// the inserted text fills, restores the text and the line index.
pub proof fn lemma_edit_round_trip(
    doc: DocumentModel,
    insertion: ContentChange,
    removal: ContentChange,
)
    requires
        insertion.range is Some,
        insertion.range->0.start == insertion.range->0.end,
        document_after(doc, insertion) is Some,
        removal.range is Some,
        removal.text@.len() == 0,
        position_index(
            encode_utf8(document_after(doc, insertion)->0.text),
            removal.range->0.start,
        ) == position_index(encode_utf8(doc.text), insertion.range->0.start),
        position_index(encode_utf8(document_after(doc, insertion)->0.text), removal.range->0.end)
            == position_index(encode_utf8(doc.text), insertion.range->0.start) + encode_utf8(
            insertion.text@,
        ).len(),
    ensures
        document_after(document_after(doc, insertion)->0, removal) is Some,
        document_after(document_after(doc, insertion)->0, removal)->0.text == doc.text,
        document_after(document_after(doc, insertion)->0, removal)->0.version == doc.version + 2,
        line_starts(
            encode_utf8(document_after(document_after(doc, insertion)->0, removal)->0.text),
        ) == line_starts(encode_utf8(doc.text)),
{
    broadcast use {encode_utf8_valid_utf8, encode_utf8_decode_utf8, decode_utf8_encode_utf8};

    let bytes = encode_utf8(doc.text);
    let at = position_index(bytes, insertion.range->0.start);
    let inserted = encode_utf8(insertion.text@);
    let mid_bytes = spliced(bytes, at, at, inserted);
    assert(bytes.subrange(0, at) + bytes.subrange(at, bytes.len() as int) =~= bytes);
    valid_utf8_split(bytes, at);
    valid_utf8_concat(bytes.subrange(0, at), inserted);
    valid_utf8_concat(bytes.subrange(0, at) + inserted, bytes.subrange(at, bytes.len() as int));
    assert(valid_utf8(mid_bytes));
    let mid = document_after(doc, insertion)->0;
    assert(encode_utf8(mid.text) == mid_bytes);
    lemma_insert_then_remove(bytes, at, inserted);
    // both ends of the removed span are boundaries of the text in between
    assert(mid_bytes.subrange(0, at) =~= bytes.subrange(0, at));
    assert(mid_bytes.subrange(0, at + inserted.len()) =~= bytes.subrange(0, at) + inserted);
    lemma_prefix_boundary(mid_bytes, at);
    lemma_prefix_boundary(mid_bytes, at + inserted.len());
    assert(encode_utf8(removal.text@) =~= Seq::<u8>::empty());
}

/// The line index of a prefix starts the line index of every longer
/// prefix, and what follows in the longer one lies behind the shorter
/// prefix.
pub proof fn lemma_line_starts_grow(bytes: Seq<u8>, n: int, m: int)
    requires
        0 <= n <= m <= bytes.len(),
    ensures
        line_starts_within(bytes, n).len() <= line_starts_within(bytes, m).len(),
        forall|k: int|
            0 <= k < line_starts_within(bytes, n).len() ==> #[trigger] line_starts_within(
                bytes,
                m,
            )[k] == line_starts_within(bytes, n)[k],
        forall|k: int|
            line_starts_within(bytes, n).len() <= k < line_starts_within(bytes, m).len()
                ==> #[trigger] line_starts_within(bytes, m)[k] > n,
    decreases m,
{
    if m > n {
        lemma_line_starts_grow(bytes, n, m - 1);
    }
}

/// The line index of a prefix is that of the same prefix of any other
/// text.
pub proof fn lemma_line_starts_of_prefix(a: Seq<u8>, b: Seq<u8>, n: int)
    requires
        0 <= n <= a.len(),
        n <= b.len(),
        a.take(n) == b.take(n),
    ensures
        line_starts_within(a, n) == line_starts_within(b, n),
    decreases n,
{
    if n > 0 {
        assert(a.take(n - 1) =~= a.take(n).take(n - 1));
        assert(b.take(n - 1) =~= b.take(n).take(n - 1));
        assert(a[n - 1] == a.take(n)[n - 1]);
        assert(b[n - 1] == b.take(n)[n - 1]);
        lemma_line_starts_of_prefix(a, b, n - 1);
    }
}

/// A position on a line of the text stands for the same byte index after
/// text was put in at that index.
pub proof fn lemma_position_kept(bytes: Seq<u8>, position: Position, inserted: Seq<u8>)
    requires
        position.line < line_starts(bytes).len(),
        position_index(bytes, position) <= bytes.len(),
    ensures
        position_index(
            spliced(
                bytes,
                position_index(bytes, position),
                position_index(bytes, position),
                inserted,
            ),
            position,
        ) == position_index(bytes, position),
{
    let at = position_index(bytes, position);
    let put = spliced(bytes, at, at, inserted);
    let line = position.line as int;
    lemma_line_starts_within(bytes, bytes.len() as int);
    assert(0 <= line_starts(bytes)[line] <= at);
    lemma_line_starts_grow(bytes, at, bytes.len() as int);
    assert(line < line_starts_within(bytes, at).len());
    assert(put.take(at) =~= bytes.take(at));
    lemma_line_starts_of_prefix(bytes, put, at);
    lemma_line_starts_grow(put, at, put.len() as int);
    assert(line_starts(put)[line] == line_starts_within(bytes, at)[line]);
}

/// An insertion at a position on a line of the text, followed by a change
/// that removes from that same position to the end of what was put in,
/// restores the text and the line index.
pub proof fn lemma_edit_round_trip_at(
    doc: DocumentModel,
    insertion: ContentChange,
    removal: ContentChange,
)
    requires
        insertion.range is Some,
        insertion.range->0.start == insertion.range->0.end,
        insertion.range->0.start.line < line_starts(encode_utf8(doc.text)).len(),
        document_after(doc, insertion) is Some,
        removal.range is Some,
        removal.text@.len() == 0,
        removal.range->0.start == insertion.range->0.start,
        position_index(encode_utf8(document_after(doc, insertion)->0.text), removal.range->0.end)
            == position_index(encode_utf8(doc.text), insertion.range->0.start) + encode_utf8(
            insertion.text@,
        ).len(),
    ensures
        document_after(document_after(doc, insertion)->0, removal) is Some,
        document_after(document_after(doc, insertion)->0, removal)->0.text == doc.text,
        document_after(document_after(doc, insertion)->0, removal)->0.version == doc.version + 2,
        line_starts(
            encode_utf8(document_after(document_after(doc, insertion)->0, removal)->0.text),
        ) == line_starts(encode_utf8(doc.text)),
{
    broadcast use {encode_utf8_valid_utf8, encode_utf8_decode_utf8, decode_utf8_encode_utf8};

    let bytes = encode_utf8(doc.text);
    let at = position_index(bytes, insertion.range->0.start);
    let inserted = encode_utf8(insertion.text@);
    assert(bytes.subrange(0, at) + bytes.subrange(at, bytes.len() as int) =~= bytes);
    valid_utf8_split(bytes, at);
    valid_utf8_concat(bytes.subrange(0, at), inserted);
    valid_utf8_concat(bytes.subrange(0, at) + inserted, bytes.subrange(at, bytes.len() as int));
    assert(encode_utf8(document_after(doc, insertion)->0.text) == spliced(bytes, at, at, inserted));
    lemma_position_kept(bytes, insertion.range->0.start, inserted);
    lemma_edit_round_trip(doc, insertion, removal);
}

/// An index that a valid prefix ends at, in a text whose remainder is valid
/// too, is a character boundary.
pub proof fn lemma_prefix_boundary(bytes: Seq<u8>, at: int)
    requires
        0 <= at <= bytes.len(),
        valid_utf8(bytes),
        valid_utf8(bytes.subrange(0, at)),
    ensures
        is_char_boundary(bytes, at),
    decreases at,
{
    if at == 0 {
    } else {
        let prefix = bytes.subrange(0, at);
        let first = length_of_first_scalar(bytes);
        assert(valid_first_scalar(prefix));
        assert(length_of_first_scalar(prefix) == first);
        assert(first <= at);
        assert(pop_first_scalar(prefix) =~= pop_first_scalar(bytes).subrange(0, at - first));
        lemma_prefix_boundary(pop_first_scalar(bytes), at - first);
    }
}

/// How often `x` occurs in a sequence of one element.
proof fn lemma_count_single<T>(a: T, x: T)
    ensures
        seq![a].to_multiset().count(x) == if a == x {
            1nat
        } else {
            0nat
        },
{
    broadcast use vstd::seq_lib::group_to_multiset_ensures;

    assert(seq![a] =~= Seq::<T>::empty().push(a));
    assert(Seq::<T>::empty().to_multiset().len() == 0);
}

/// The encoding of a character holds the newline byte once if it is the
/// newline, and not at all otherwise.
proof fn lemma_newlines_of_scalar(c: char)
    ensures
        encode_scalar(c as u32).to_multiset().count(NEWLINE) == if c == '\n' {
            1nat
        } else {
            0nat
        },
{
    broadcast use vstd::seq_lib::group_to_multiset_ensures;

    let scalar = c as u32;
    let encoded = encode_scalar(scalar);
    char_is_scalar(c);
    if has_width_1_encoding(scalar) {
        assert(leading_byte_width_1(scalar) == scalar) by (bit_vector)
            requires
                scalar <= 0x7f,
        ;
        lemma_count_single(leading_byte_width_1(scalar), NEWLINE);
        assert(encoded =~= seq![leading_byte_width_1(scalar)]);
        if c == '\n' {
            assert(scalar == 10);
        } else {
            if scalar == 10 {
                char_u32_cast(c, scalar);
                char_u32_cast('\n', scalar);
            }
        }
    } else {
        assert(forall|x: u8| #![auto] 0x80u8 | x >= 0x80) by (bit_vector);
        assert(forall|x: u8| #![auto] 0xC0u8 | x >= 0x80) by (bit_vector);
        assert(forall|x: u8| #![auto] 0xE0u8 | x >= 0x80) by (bit_vector);
        assert(forall|x: u8| #![auto] 0xF0u8 | x >= 0x80) by (bit_vector);
        assert(forall|i: int| 0 <= i < encoded.len() ==> encoded[i] != NEWLINE);
        assert(!encoded.contains(NEWLINE));
        assert(c != '\n');
    }
}

/// A text holds as many newline bytes, once encoded, as it holds newline
/// characters.
pub proof fn lemma_newline_count(text: Seq<char>)
    ensures
        encode_utf8(text).to_multiset().count(NEWLINE) == text.to_multiset().count('\n'),
    decreases text.len(),
{
    broadcast use vstd::seq_lib::group_to_multiset_ensures;

    if text.len() == 0 {
        assert(text.to_multiset().len() == 0);
        assert(encode_utf8(text).to_multiset().len() == 0);
    } else {
        let rest = text.drop_first();
        lemma_newline_count(rest);
        lemma_newlines_of_scalar(text[0]);
        lemma_count_single(text[0], '\n');
        assert(text =~= seq![text[0]] + rest);
        vstd::seq_lib::lemma_multiset_commutative(seq![text[0]], rest);
        vstd::seq_lib::lemma_multiset_commutative(encode_scalar(text[0] as u32), encode_utf8(rest));
    }
}

/// The line index of any text holds one entry more than the text has
/// newlines, starts with 0, and rises strictly.
pub proof fn lemma_line_index_shape(text: Seq<char>)
    ensures
        line_starts(encode_utf8(text)).len() == 1 + text.to_multiset().count('\n'),
        line_starts(encode_utf8(text))[0] == 0,
        forall|j: int, k: int|
            0 <= j < k < line_starts(encode_utf8(text)).len() ==> line_starts(
                encode_utf8(text),
            )[j] < line_starts(encode_utf8(text))[k],
{
    let bytes = encode_utf8(text);
    lemma_line_starts_within(bytes, bytes.len() as int);
    assert(bytes.take(bytes.len() as int) =~= bytes);
    lemma_newline_count(text);
}

} // verus!
