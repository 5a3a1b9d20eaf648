//! The open documents of a session, by URI. A change whose text does not
//! parse keeps the document's previous tree.
use vstd::prelude::*;
use crate::parser::{Document, ParseError, MAX_DOCUMENT_CHARS, root_ok};
use crate::yaml::yaml_accepts;
use crate::grammar::{node_view, tree_of};

verus! {

/// URL of the official Buildkite pipeline JSON schema.
pub const BUILDKITE_SCHEMA_URL: &'static str = "https://raw.githubusercontent.com/buildkite/pipeline-schema/refs/heads/main/schema.json";

/// Index of the entry for `uri`.
pub open spec fn find_uri(entries: Seq<(String, Document)>, uri: Seq<char>) -> Option<int> {
    if exists|i: int| 0 <= i < entries.len() && (#[trigger] entries[i]).0@ == uri {
        Some(choose|i: int| 0 <= i < entries.len() && (#[trigger] entries[i]).0@ == uri)
    } else {
        None
    }
}

/// The open documents.
pub struct DocumentStore {
    entries: Vec<(String, Document)>,
}

impl DocumentStore {
    /// The document open under `uri`.
    pub closed spec fn document_of(&self, uri: Seq<char>) -> Option<Document> {
        match find_uri(self.entries@, uri) {
            Some(i) => Some(self.entries@[i].1),
            None => None,
        }
    }

    /// Each URI has one entry, and each document's tree is one a parse installed.
    pub closed spec fn wf(&self) -> bool {
        &&& forall|i: int, j: int| 0 <= i < j < self.entries.len()
            ==> (#[trigger] self.entries@[i]).0@ != (#[trigger] self.entries@[j]).0@
        &&& forall|i: int| 0 <= i < self.entries.len() ==> (#[trigger] self.entries@[i]).1.wf()
    }

    /// A store with no documents.
    pub fn new() -> (r: Self)
        ensures
            r.wf(),
            forall|u: Seq<char>| r.document_of(u) is None,
    {
        DocumentStore { entries: Vec::new() }
    }

    fn index_of(&self, uri: &String) -> (r: Option<usize>)
        requires
            self.wf(),
        ensures
            r matches Some(i) ==> i < self.entries.len() && find_uri(self.entries@, uri@) == Some(i as int),
            r is None ==> find_uri(self.entries@, uri@) is None,
    {
        let mut i: usize = 0;
        while i < self.entries.len()
            invariant
                i <= self.entries.len(),
                self.wf(),
                forall|k: int| 0 <= k < i ==> (#[trigger] self.entries@[k]).0@ != uri@,
            decreases self.entries.len() - i,
        {
            if self.entries[i].0 == *uri {
                let ghost c = choose|k: int| 0 <= k < self.entries.len() && (#[trigger] self.entries@[k]).0@ == uri@;
                assert(self.entries@[i as int].0@ == uri@);
                proof {
                    if c < i as int {
                        assert(self.entries@[c].0@ != self.entries@[i as int].0@);
                    } else if c > i as int {
                        assert(self.entries@[i as int].0@ != self.entries@[c].0@);
                    }
                }
                return Some(i);
            }
            i = i + 1;
        }
        None
    }

    /// The document open under `uri`.
    pub fn get(&self, uri: &String) -> (r: Option<&Document>)
        requires
            self.wf(),
        ensures
            r matches Some(d) ==> self.document_of(uri@) == Some(*d) && d.wf(),
            r is None ==> self.document_of(uri@) is None,
    {
        match self.index_of(uri) {
            Some(i) => Some(&self.entries[i].1),
            None => None,
        }
    }

    /// Opens a document under `uri` with the given text and parses it; a
    /// document already open there is replaced.
    pub fn open(&mut self, uri: String, text: String) -> (r: Result<(), ParseError>)
        requires
            old(self).wf(),
        ensures
            final(self).wf(),
            final(self).document_of(uri@) matches Some(d) && d.text == text
                && (r is Ok <==> (yaml_accepts(text@) && text@.len() <= MAX_DOCUMENT_CHARS))
                && (r is Ok ==> (d.root matches Some(t) && root_ok(t) && node_view(t) == tree_of(text@)))
                && (r is Err ==> d.root is None),
            forall|u: Seq<char>| u != uri@ ==> final(self).document_of(u) == old(self).document_of(u),
    {
        self.close(&uri);
        let mut d = Document::new(text);
        let r = d.parse();
        let ghost before = self.entries@;
        let ghost key = uri@;
        self.entries.push((uri, d));
        assert(self.entries@[before.len() as int].0@ == key);
        assert forall|u: Seq<char>| u != key implies self.document_of(u) == old(self).document_of(u) by {
            assert forall|k: int| 0 <= k < self.entries.len() && (#[trigger] self.entries@[k]).0@ == u
                implies 0 <= k < before.len() && before[k].0@ == u by {}
            assert forall|k: int| 0 <= k < before.len() && (#[trigger] before[k]).0@ == u
                implies self.entries@[k].0@ == u by {
                assert(self.entries@[k] == before[k]);
            }
        }
        r
    }

    /// Replaces the text of the document open under `uri` and parses it; on
    /// failure its previous tree stays. `None` when no document is open there.
    pub fn change(&mut self, uri: &String, text: String) -> (r: Option<Result<(), ParseError>>)
        requires
            old(self).wf(),
        ensures
            final(self).wf(),
            r is None <==> old(self).document_of(uri@) is None,
            r is None ==> final(self).document_of(uri@) is None,
            r matches Some(res) ==> (final(self).document_of(uri@) matches Some(d) && d.text == text
                && (res is Ok <==> (yaml_accepts(text@) && text@.len() <= MAX_DOCUMENT_CHARS))
                && (res is Ok ==> (d.root matches Some(t) && root_ok(t) && node_view(t) == tree_of(text@)))
                && (res is Err ==> d.root == old(self).document_of(uri@)->0.root)),
            forall|u: Seq<char>| u != uri@ ==> final(self).document_of(u) == old(self).document_of(u),
    {
        match self.index_of(uri) {
            None => None,
            Some(i) => {
                let ghost before = self.entries@;
                let (u, mut d) = self.entries.remove(i);
                assert(before[i as int].1.wf());
                let res = d.update(text);
                self.entries.insert(i, (u, d));
                assert(self.entries@ =~= before.update(i as int, (before[i as int].0, d)));
                assert forall|w: Seq<char>| w != uri@ implies self.document_of(w) == old(self).document_of(w) by {
                    assert forall|k: int| 0 <= k < self.entries.len() && (#[trigger] self.entries@[k]).0@ == w
                        implies before[k].0@ == w by {}
                    assert forall|k: int| 0 <= k < before.len() && (#[trigger] before[k]).0@ == w
                        implies self.entries@[k].0@ == w by {}
                }
                assert(self.entries@[i as int].0@ == uri@);
                Some(res)
            },
        }
    }

    /// Installs a document parsed elsewhere under `uri`, replacing the one
    /// open there; whether one was. A document without a tree (its parse
    /// failed) keeps the tree of the document it replaces.
    pub fn install(&mut self, uri: String, document: Document) -> (r: bool)
        requires
            old(self).wf(),
            document.wf(),
        ensures
            final(self).wf(),
            r == old(self).document_of(uri@) is Some,
            final(self).document_of(uri@) matches Some(d) && d.text == document.text
                && d.root == (if document.root is None && old(self).document_of(uri@) is Some {
                    old(self).document_of(uri@)->0.root
                } else {
                    document.root
                }),
            forall|u: Seq<char>| u != uri@ ==> final(self).document_of(u) == old(self).document_of(u),
    {
        let mut document = document;
        match self.index_of(&uri) {
            None => {
                let ghost before = self.entries@;
                let ghost key = uri@;
                self.entries.push((uri, document));
                assert(self.entries@[before.len() as int].0@ == key);
                assert forall|u: Seq<char>| u != key implies self.document_of(u) == old(self).document_of(u) by {
                    assert forall|k: int| 0 <= k < self.entries.len() && (#[trigger] self.entries@[k]).0@ == u
                        implies 0 <= k < before.len() && before[k].0@ == u by {}
                    assert forall|k: int| 0 <= k < before.len() && (#[trigger] before[k]).0@ == u
                        implies self.entries@[k].0@ == u by {
                        assert(self.entries@[k] == before[k]);
                    }
                }
                false
            },
            Some(i) => {
                let ghost before = self.entries@;
                let (u, previous) = self.entries.remove(i);
                assert(before[i as int].1.wf());
                if document.root.is_none() {
                    document.root = previous.root;
                }
                let ghost d = document;
                self.entries.insert(i, (u, document));
                assert(self.entries@ =~= before.update(i as int, (before[i as int].0, d)));
                assert forall|w: Seq<char>| w != uri@ implies self.document_of(w) == old(self).document_of(w) by {
                    assert forall|k: int| 0 <= k < self.entries.len() && (#[trigger] self.entries@[k]).0@ == w
                        implies before[k].0@ == w by {}
                    assert forall|k: int| 0 <= k < before.len() && (#[trigger] before[k]).0@ == w
                        implies self.entries@[k].0@ == w by {}
                }
                assert(self.entries@[i as int].0@ == uri@);
                true
            },
        }
    }

    /// Closes the document open under `uri`; whether one was open.
    pub fn close(&mut self, uri: &String) -> (r: bool)
        requires
            old(self).wf(),
        ensures
            final(self).wf(),
            r == old(self).document_of(uri@) is Some,
            final(self).document_of(uri@) is None,
            forall|u: Seq<char>| u != uri@ ==> final(self).document_of(u) == old(self).document_of(u),
    {
        match self.index_of(uri) {
            None => false,
            Some(i) => {
                let ghost before = self.entries@;
                self.entries.remove(i);
                assert forall|k: int| 0 <= k < self.entries.len() implies (#[trigger] self.entries@[k]).0@ != uri@ by {
                    if k < i {
                        assert(self.entries@[k] == before[k]);
                    } else {
                        assert(self.entries@[k] == before[k + 1]);
                    }
                }
                assert forall|w: Seq<char>| w != uri@ implies self.document_of(w) == old(self).document_of(w) by {
                    assert forall|k: int| 0 <= k < self.entries.len() && (#[trigger] self.entries@[k]).0@ == w
                        implies before[if k < i { k } else { k + 1 }].0@ == w by {
                        if k >= i {
                            assert(self.entries@[k] == before[k + 1]);
                        }
                    }
                    assert forall|k: int| 0 <= k < before.len() && (#[trigger] before[k]).0@ == w
                        implies self.entries@[if k < i { k } else { k - 1 }].0@ == w by {
                        if k > i {
                            assert(self.entries@[k - 1] == before[k]);
                        }
                    }
                }
                true
            },
        }
    }
}

} // verus!
