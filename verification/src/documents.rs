//! The texts of the open documents, by document address.
use vstd::prelude::*;
use crate::text::{owned, same_text};

verus! {

/// An open document: its address and its current text.
pub struct OpenDocument {
    pub uri: String,
    pub text: String,
}

/// The open documents. No address occurs twice.
pub struct DocumentStore {
    docs: Vec<OpenDocument>,
}

/// `i` is the index of the first document at `uri`.
pub open spec fn first_doc(docs: Seq<OpenDocument>, uri: Seq<char>, i: int) -> bool {
    &&& 0 <= i < docs.len()
    &&& docs[i].uri@ == uri
    &&& forall|j: int| 0 <= j < i ==> docs[j].uri@ != uri
}

/// The text of the first document at `uri`, if any.
pub open spec fn text_at(docs: Seq<OpenDocument>, uri: Seq<char>) -> Option<Seq<char>> {
    if exists|i: int| #[trigger] first_doc(docs, uri, i) {
        Some(docs[choose|i: int| #[trigger] first_doc(docs, uri, i)].text@)
    } else {
        None
    }
}

/// No address occurs twice in the list.
pub open spec fn distinct_uris(docs: Seq<OpenDocument>) -> bool {
    forall|i: int, j: int|
        0 <= i < j < docs.len() ==> #[trigger] docs[i].uri@ != #[trigger] docs[j].uri@
}

/// The store after a document is opened (or replaced) with a text.
pub open spec fn after_open(m: Map<Seq<char>, Seq<char>>, uri: Seq<char>, text: Seq<char>) -> Map<
    Seq<char>,
    Seq<char>,
> {
    m.insert(uri, text)
}

/// The store after a document changes: the last of the changed texts replaces
/// it (and opens it where it was not open); no change leaves the store as it
/// was.
pub open spec fn after_change(
    m: Map<Seq<char>, Seq<char>>,
    uri: Seq<char>,
    changes: Seq<Seq<char>>,
) -> Map<Seq<char>, Seq<char>> {
    if changes.len() > 0 {
        m.insert(uri, changes.last())
    } else {
        m
    }
}

/// The store after a document is closed.
pub open spec fn after_close(m: Map<Seq<char>, Seq<char>>, uri: Seq<char>) -> Map<
    Seq<char>,
    Seq<char>,
> {
    m.remove(uri)
}

impl View for DocumentStore {
    type V = Map<Seq<char>, Seq<char>>;

    closed spec fn view(&self) -> Map<Seq<char>, Seq<char>> {
        Map::new(|u: Seq<char>| text_at(self.docs@, u) is Some, |u: Seq<char>| text_at(self.docs@, u)->0)
    }
}

/// The first document at an address is the only one there is.
proof fn lemma_first_doc(docs: Seq<OpenDocument>, uri: Seq<char>, i: int)
    requires
        first_doc(docs, uri, i),
    ensures
        text_at(docs, uri) == Some(docs[i].text@),
{
    let j = choose|j: int| #[trigger] first_doc(docs, uri, j);
    assert(first_doc(docs, uri, j));
    if j < i {
        assert(docs[j].uri@ != uri);
    }
    if i < j {
        assert(docs[i].uri@ != uri);
    }
}

/// The index of the document at `uri` in the list, if it is there.
fn find_doc(docs: &Vec<OpenDocument>, uri: &str) -> (r: Option<usize>)
    ensures
        r matches Some(i) ==> first_doc(docs@, uri@, i as int),
        r is None ==> forall|j: int| 0 <= j < docs@.len() ==> docs@[j].uri@ != uri@,
{
    let mut i: usize = 0;
    while i < docs.len()
        invariant
            i <= docs@.len(),
            forall|j: int| 0 <= j < i ==> docs@[j].uri@ != uri@,
        decreases docs@.len() - i,
    {
        if same_text(docs[i].uri.as_str(), uri) {
            return Some(i);
        }
        i = i + 1;
    }
    None
}

impl DocumentStore {
    /// No address occurs twice.
    #[verifier::type_invariant]
    spec fn addresses_distinct(self) -> bool {
        distinct_uris(self.docs@)
    }

    /// The store with no open document.
    pub fn new() -> (s: DocumentStore)
        ensures
            s@ == Map::<Seq<char>, Seq<char>>::empty(),
    {
        let s = DocumentStore { docs: Vec::new() };
        assert(s@ =~= Map::<Seq<char>, Seq<char>>::empty());
        s
    }


    /// The text of the document at `uri`, if it is open.
    pub fn get(&self, uri: &str) -> (r: Option<String>)
        ensures
            match r {
                Some(t) => self@.contains_key(uri@) && self@[uri@] == t@,
                None => !self@.contains_key(uri@),
            },
    {
        match find_doc(&self.docs, uri) {
            Some(i) => {
                proof {
                    lemma_first_doc(self.docs@, uri@, i as int);
                }
                Some(owned(self.docs[i].text.as_str()))
            },
            None => {
                assert(!exists|i: int| #[trigger] first_doc(self.docs@, uri@, i));
                None
            },
        }
    }

    /// Opens the document at `uri` with `text`, replacing the text it had.
    pub fn open(&mut self, uri: &str, text: &str)
        ensures
            final(self)@ == after_open(old(self)@, uri@, text@),
    {
        proof {
            use_type_invariant(&*self);
        }
        let ghost before = self.docs@;
        let mut docs: Vec<OpenDocument> = Vec::new();
        std::mem::swap(&mut docs, &mut self.docs);
        let doc = OpenDocument { uri: owned(uri), text: owned(text) };
        match find_doc(&docs, uri) {
            Some(i) => {
                docs.set(i, doc);
                let ghost after = docs@;
                assert forall|u: Seq<char>| #[trigger] text_at(after, u) == if u == uri@ {
                    Some(text@)
                } else {
                    text_at(before, u)
                } by {
                    if u == uri@ {
                        assert(first_doc(after, u, i as int));
                        lemma_first_doc(after, u, i as int);
                    } else {
                        if exists|k: int| #[trigger] first_doc(before, u, k) {
                            let k = choose|k: int| #[trigger] first_doc(before, u, k);
                            lemma_first_doc(before, u, k);
                            assert(k != i);
                            assert(first_doc(after, u, k));
                            lemma_first_doc(after, u, k);
                        } else {
                            assert forall|k: int| !#[trigger] first_doc(after, u, k) by {
                                if first_doc(after, u, k) {
                                    assert(first_doc(before, u, k));
                                }
                            }
                        }
                    }
                }
            },
            None => {
                docs.push(doc);
                let ghost after = docs@;
                assert forall|u: Seq<char>| #[trigger] text_at(after, u) == if u == uri@ {
                    Some(text@)
                } else {
                    text_at(before, u)
                } by {
                    if u == uri@ {
                        assert(first_doc(after, u, before.len() as int));
                        lemma_first_doc(after, u, before.len() as int);
                    } else {
                        if exists|k: int| #[trigger] first_doc(before, u, k) {
                            let k = choose|k: int| #[trigger] first_doc(before, u, k);
                            lemma_first_doc(before, u, k);
                            assert(first_doc(after, u, k));
                            lemma_first_doc(after, u, k);
                        } else {
                            assert forall|k: int| !#[trigger] first_doc(after, u, k) by {
                                if first_doc(after, u, k) && k < before.len() {
                                    assert(first_doc(before, u, k));
                                }
                            }
                        }
                    }
                }
            },
        }
        assert(distinct_uris(docs@));
        self.docs = docs;
        assert(self@ =~= after_open(old(self)@, uri@, text@));
    }

    /// Applies a change of the document at `uri`: the last of the changed
    /// texts becomes its text; no change leaves the store as it was.
    pub fn change(&mut self, uri: &str, changes: &Vec<String>)
        ensures
            final(self)@ == after_change(old(self)@, uri@, changes@.map_values(|c: String| c@)),
    {
        let n = changes.len();
        if n > 0 {
            self.open(uri, changes[n - 1].as_str());
        }
    }

    /// Closes the document at `uri`.
    pub fn close(&mut self, uri: &str)
        ensures
            final(self)@ == after_close(old(self)@, uri@),
    {
        proof {
            use_type_invariant(&*self);
        }
        let ghost before = self.docs@;
        let mut docs: Vec<OpenDocument> = Vec::new();
        std::mem::swap(&mut docs, &mut self.docs);
        match find_doc(&docs, uri) {
            Some(i) => {
                let _gone = docs.remove(i);
                let ghost after = docs@;
                assert(after =~= before.remove(i as int));
                assert forall|a: int, b: int| 0 <= a < b < after.len() implies #[trigger] after[a].uri@
                    != #[trigger] after[b].uri@ by {
                    let aa = if a < i { a } else { a + 1 };
                    let bb = if b < i { b } else { b + 1 };
                    assert(after[a] == before[aa]);
                    assert(after[b] == before[bb]);
                }
                assert forall|u: Seq<char>| #[trigger] text_at(after, u) == if u == uri@ {
                    None
                } else {
                    text_at(before, u)
                } by {
                    if u == uri@ {
                        assert forall|k: int| !#[trigger] first_doc(after, u, k) by {
                            if first_doc(after, u, k) {
                                if k < i {
                                    assert(before[k] == after[k]);
                                } else {
                                    assert(after[k] == before[k + 1]);
                                    assert(before[i as int].uri@ != before[k + 1].uri@);
                                }
                            }
                        }
                    } else {
                        if exists|k: int| #[trigger] first_doc(before, u, k) {
                            let k = choose|k: int| #[trigger] first_doc(before, u, k);
                            lemma_first_doc(before, u, k);
                            assert(k != i);
                            if k < i {
                                assert(first_doc(after, u, k));
                                lemma_first_doc(after, u, k);
                            } else {
                                assert(first_doc(after, u, k - 1));
                                lemma_first_doc(after, u, k - 1);
                            }
                        } else {
                            assert forall|k: int| !#[trigger] first_doc(after, u, k) by {
                                if first_doc(after, u, k) {
                                    if k < i {
                                        assert(first_doc(before, u, k));
                                    } else {
                                        assert(first_doc(before, u, k + 1));
                                    }
                                }
                            }
                        }
                    }
                }
            },
            None => {
                assert forall|u: Seq<char>| #[trigger] text_at(before, u) is Some implies u
                    != uri@ by {
                    if u == uri@ {
                        let k = choose|k: int| #[trigger] first_doc(before, u, k);
                        assert(first_doc(before, u, k));
                    }
                }
            },
        }
        self.docs = docs;
        assert(self@ =~= after_close(old(self)@, uri@));
    }
}

} // verus!
