use vstd::prelude::*;
use vstd::utf8::encode_utf8;
use crate::db::Db;

verus! {

/// An interned word (an identifier or other piece of text), a handle into the
/// word table of a [`crate::db::Db`].
#[derive(Clone, Copy, Debug, PartialEq, Eq, Structural, Hash)]
pub struct Word {
    pub id: usize,
}

/// Conversion of a text-like value into an owned `String`.
pub trait ToString: Sized {
    /// The characters that `to_string` produces.
    spec fn text(&self) -> Seq<char>;

    fn to_string(self) -> (r: String)
        ensures
            r@ == self.text(),
    ;
}

impl ToString for String {
    open spec fn text(&self) -> Seq<char> {
        self@
    }

    fn to_string(self) -> (r: String) {
        self
    }
}

impl<'a> ToString for &'a str {
    open spec fn text(&self) -> Seq<char> {
        (*self)@
    }

    fn to_string(self) -> (r: String) {
        self.to_owned()
    }
}

impl Word {
    /// The text of the word.
    pub open spec fn text(self, db: Db) -> Seq<char> {
        db.words@[self.id as int]@
    }

    /// Intern a word: equal texts give the same word.
    pub fn intern<S: ToString>(db: &mut Db, string: S) -> (r: Word)
        requires
            old(db).wf(),
        ensures
            final(db).wf(),
            final(db).extends(*old(db)),
            final(db).terms == old(db).terms,
            r.id < final(db).words@.len(),
            r.text(*final(db)) == string.text(),
            (exists|j: int| 0 <= j < old(db).words@.len() && old(db).words@[j]@ == string.text())
                ==> final(db).words@ == old(db).words@,
    {
        let s = string.to_string();
        let mut i: usize = 0;
        while i < db.words.len()
            invariant
                0 <= i <= db.words@.len(),
                s@ == string.text(),
                *db == *old(db),
                db.wf(),
                forall|j: int| 0 <= j < i ==> db.words@[j]@ != s@,
            decreases db.words@.len() - i,
        {
            if db.words[i] == s {
                proof {
                    assert forall|j: int| 0 <= j < db.terms@.len() implies #[trigger] db.terms@[j]
                        == old(db).terms@[j] by {}
                    assert forall|j: int| 0 <= j < db.words@.len() implies #[trigger] db.words@[j]
                        == old(db).words@[j] by {}
                    assert forall|j: int| 0 <= j < db.classes@.len() implies #[trigger] db.classes@[j]
                        == old(db).classes@[j] by {}
                    assert forall|j: int| 0 <= j < db.variables@.len() implies #[trigger] db.variables@[j]
                        == old(db).variables@[j] by {}
                    assert forall|j: int| 0 <= j < db.fields@.len() implies #[trigger] db.fields@[j]
                        == old(db).fields@[j] by {}
                }
                return Word { id: i };
            }
            i += 1;
        }
        let id = db.words.len();
        let ghost old_db = *db;
        db.words.push(s);
        proof {
            assert forall|a: int, b: int|
                0 <= a < db.words@.len() && 0 <= b < db.words@.len() && a != b implies #[trigger] db.words@[a]@
                != #[trigger] db.words@[b]@ by {
                if a < id && b < id {
                    assert(db.words@[a] == old_db.words@[a]);
                    assert(db.words@[b] == old_db.words@[b]);
                } else if a < id {
                    assert(db.words@[a] == old_db.words@[a]);
                } else {
                    assert(db.words@[b] == old_db.words@[b]);
                }
            }
            assert forall|j: int| 0 <= j < old_db.words@.len() implies #[trigger] db.words@[j]
                == old_db.words@[j] by {}
        }
        Word { id }
    }

    /// The text of the word.
    pub fn as_str(self, db: &Db) -> (r: &str)
        requires
            self.id < db.words@.len(),
        ensures
            r@ == self.text(*db),
    {
        db.words[self.id].as_str()
    }

    /// The length of the word in bytes of UTF-8, as a `u32` (truncated).
    pub fn len(self, db: &Db) -> (r: u32)
        requires
            self.id < db.words@.len(),
        ensures
            r == #[verifier::truncate] ((encode_utf8(self.text(*db)).len() as usize) as u32),
    {
        #[verifier::truncate]
        (self.as_str(db).len() as u32)
    }
}

} // verus!
