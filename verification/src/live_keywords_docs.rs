use vstd::prelude::*;
use vstd::string::*;
use crate::paths::same_text;

verus! {

/// What is told about each keyword of a live design block. The entries
/// are kept as a list of pairs, over which a lookup by a keyword's text is
/// stated exactly.
#[derive(Debug)]
pub struct LiveKeywordsDocs(Vec<(String, String)>);

/// The keywords that are documented.
pub open spec fn documented_keywords() -> Seq<Seq<char>> {
    seq!["pub"@, "link::"@, "crate::"@, "use"@, "dep"@]
}

impl LiveKeywordsDocs {
    /// The keywords, each with what is told about it.
    pub closed spec fn entries(&self) -> Seq<(Seq<char>, Seq<char>)> {
        self.0@.map_values(|entry: (String, String)| (entry.0@, entry.1@))
    }

    /// Every documented keyword, in order, each with the same placeholder.
    pub fn new() -> (docs: Self)
        ensures
            docs.entries().len() == documented_keywords().len(),
            forall|k: int|
                0 <= k < docs.entries().len() ==> (#[trigger] docs.entries()[k]).0
                    == documented_keywords()[k] && docs.entries()[k].1 == "Some detail"@,
    {
        let mut keyword_docs: Vec<(String, String)> = Vec::new();
        keyword_docs.push(("pub".to_owned(), "Some detail".to_owned()));
        keyword_docs.push(("link::".to_owned(), "Some detail".to_owned()));
        keyword_docs.push(("crate::".to_owned(), "Some detail".to_owned()));
        keyword_docs.push(("use".to_owned(), "Some detail".to_owned()));
        keyword_docs.push(("dep".to_owned(), "Some detail".to_owned()));
        LiveKeywordsDocs(keyword_docs)
    }

    /// The number of keywords documented.
    pub fn len(&self) -> (len: usize)
        ensures
            len == self.entries().len(),
    {
        self.0.len()
    }

    /// What is told about `keyword`: the text of the first entry for it.
    pub fn get(&self, keyword: &str) -> (doc: Option<&str>)
        ensures
            match doc {
                Some(text) => exists|k: int|
                    0 <= k < self.entries().len() && (#[trigger] self.entries()[k]).0 == keyword@
                        && self.entries()[k].1 == text@,
                None => forall|k: int|
                    0 <= k < self.entries().len() ==> (#[trigger] self.entries()[k]).0 != keyword@,
            },
    {
        let mut i: usize = 0;
        while i < self.0.len()
            invariant
                i <= self.0@.len(),
                forall|k: int| 0 <= k < i ==> (#[trigger] self.entries()[k]).0 != keyword@,
            decreases self.0@.len() - i,
        {
            if same_text(self.0[i].0.as_str(), keyword) {
                assert(self.entries()[i as int].0 == keyword@);
                return Some(self.0[i].1.as_str());
            }
            i += 1;
        }
        None
    }
}

} // verus!
