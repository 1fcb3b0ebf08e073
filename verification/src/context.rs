//! The symbol table: lifelines, messages and named message types.
//!
//! Names are interned in three append-only tables. An identifier is the
//! index of a name in its table, so identifiers are dense and start at 0.

use crate::sets::set_copy;
use std::collections::HashSet;
use vstd::prelude::*;

verus! {

/// A lookup by an identifier that the table does not hold.
#[derive(Debug, PartialEq, Eq, Clone, Copy, Structural)]
pub enum HibouCoreError {
    UnknownLifeline(usize),
    UnknownMessage(usize),
    UnknownMessageType(usize),
}

/// A named message type: its name and the messages that it denotes.
pub struct NamedMessageType {
    pub name: String,
    pub messages: HashSet<usize>,
}

/// The symbol table.
pub struct GeneralContext {
    lf_names: Vec<String>,
    ms_names: Vec<String>,
    mt_names: Vec<NamedMessageType>,
}

/// What a symbol table holds: the three tables of names, and for each
/// named type the set of messages it denotes.
pub struct ContextView {
    pub lf_names: Seq<Seq<char>>,
    pub ms_names: Seq<Seq<char>>,
    pub mt_names: Seq<Seq<char>>,
    pub mt_messages: Seq<Set<usize>>,
}

/// The first index at which `name` stands in `names`, if it stands there.
pub open spec fn position_of(names: Seq<Seq<char>>, name: Seq<char>) -> Option<usize> {
    if exists|i: int| 0 <= i < names.len() && names[i] == name {
        Some(
            (choose|i: int|
                0 <= i < names.len() && names[i] == name && forall|j: int|
                    0 <= j < i ==> names[j] != name) as usize,
        )
    } else {
        None
    }
}

/// `r` is what `position_of` gives: the first index of `name`, or `None`.
pub open spec fn is_position_of(names: Seq<Seq<char>>, name: Seq<char>, r: Option<usize>) -> bool {
    match r {
        Some(i) => i < names.len() && names[i as int] == name && forall|j: int|
            0 <= j < i ==> names[j] != name,
        None => forall|j: int| 0 <= j < names.len() ==> names[j] != name,
    }
}

pub proof fn lemma_position_of(names: Seq<Seq<char>>, name: Seq<char>, r: Option<usize>)
    requires
        is_position_of(names, name, r),
    ensures
        position_of(names, name) == r,
{
    match r {
        Some(i) => {
            assert(0 <= i < names.len() && names[i as int] == name);
            let c = choose|c: int|
                0 <= c < names.len() && names[c] == name && forall|j: int|
                    0 <= j < c ==> names[j] != name;
            assert(c == i) by {
                if c < i {
                }
                if i < c {
                }
            }
        },
        None => {},
    }
}

impl ContextView {
    /// No name occurs twice in a table, and every named type has its set.
    pub open spec fn well_formed(self) -> bool {
        &&& self.lf_names.no_duplicates()
        &&& self.ms_names.no_duplicates()
        &&& self.mt_names.no_duplicates()
        &&& self.mt_names.len() == self.mt_messages.len()
    }

    pub open spec fn lf_num(self) -> nat {
        self.lf_names.len()
    }

    pub open spec fn ms_num(self) -> nat {
        self.ms_names.len()
    }

    pub open spec fn mt_num(self) -> nat {
        self.mt_messages.len()
    }

    /// The first named type that denotes exactly `s`, if there is one.
    pub open spec fn type_denoting(self, s: Set<usize>) -> Option<usize> {
        if exists|i: usize| i < self.mt_messages.len() && self.mt_messages[i as int] == s {
            Some(
                choose|i: usize|
                    i < self.mt_messages.len() && self.mt_messages[i as int] == s && forall|
                        j: usize,
                    |
                        j < i ==> self.mt_messages[j as int] != s,
            )
        } else {
            None
        }
    }
}

pub open spec fn names_of(v: Seq<String>) -> Seq<Seq<char>> {
    Seq::new(v.len(), |i: int| v[i]@)
}

impl View for GeneralContext {
    type V = ContextView;

    closed spec fn view(&self) -> ContextView {
        ContextView {
            lf_names: names_of(self.lf_names@),
            ms_names: names_of(self.ms_names@),
            mt_names: Seq::new(self.mt_names@.len(), |i: int| self.mt_names@[i].name@),
            mt_messages: Seq::new(self.mt_names@.len(), |i: int| self.mt_names@[i].messages@),
        }
    }
}

fn copy_names(names: &Vec<String>) -> (r: Vec<String>)
    ensures
        names_of(r@) == names_of(names@),
{
    let mut r: Vec<String> = Vec::new();
    let mut i: usize = 0;
    while i < names.len()
        invariant
            i <= names.len(),
            r@.len() == i,
            forall|j: int| 0 <= j < i ==> r@[j]@ == names@[j]@,
        decreases names.len() - i,
    {
        r.push(names[i].clone());
        i += 1;
    }
    proof {
        assert(names_of(r@) =~= names_of(names@));
    }
    r
}

impl Clone for GeneralContext {
    fn clone(&self) -> (r: Self)
        ensures
            r@ == self@,
    {
        let mut mt_names: Vec<NamedMessageType> = Vec::new();
        let mut i: usize = 0;
        while i < self.mt_names.len()
            invariant
                i <= self.mt_names.len(),
                mt_names@.len() == i,
                forall|j: int|
                    0 <= j < i ==> mt_names@[j].name@ == self.mt_names@[j].name@
                        && mt_names@[j].messages@ == self.mt_names@[j].messages@,
            decreases self.mt_names.len() - i,
        {
            mt_names.push(
                NamedMessageType {
                    name: self.mt_names[i].name.clone(),
                    messages: set_copy(&self.mt_names[i].messages),
                },
            );
            i += 1;
        }
        let r = GeneralContext {
            lf_names: copy_names(&self.lf_names),
            ms_names: copy_names(&self.ms_names),
            mt_names,
        };
        proof {
            assert(r@.mt_names =~= self@.mt_names);
            assert(r@.mt_messages =~= self@.mt_messages);
        }
        r
    }
}

fn find_name(names: &Vec<String>, name: &str) -> (r: Option<usize>)
    ensures
        is_position_of(names_of(names@), name@, r),
{
    let wanted = name.to_owned();
    let mut i: usize = 0;
    while i < names.len()
        invariant
            i <= names.len(),
            wanted@ == name@,
            forall|j: int| 0 <= j < i ==> names_of(names@)[j] != name@,
        decreases names.len() - i,
    {
        if names[i] == wanted {
            return Some(i);
        }
        i += 1;
    }
    None
}

impl GeneralContext {
    /// Every named type has its set of messages, and the tables fit the
    /// machine.
    pub proof fn lemma_types_have_messages(&self)
        ensures
            self@.mt_names.len() == self@.mt_messages.len(),
            self@.lf_num() <= usize::MAX,
            self@.ms_num() <= usize::MAX,
            self@.mt_num() <= usize::MAX,
    {
        assert(self.lf_names.len() == self.lf_names@.len());
        assert(self.ms_names.len() == self.ms_names@.len());
        assert(self.mt_names.len() == self.mt_names@.len());
    }


    pub fn new() -> (r: GeneralContext)
        ensures
            r@.lf_names.len() == 0,
            r@.ms_names.len() == 0,
            r@.mt_names.len() == 0,
            r@.mt_messages.len() == 0,
            r@.well_formed(),
    {
        GeneralContext { lf_names: Vec::new(), ms_names: Vec::new(), mt_names: Vec::new() }
    }

    /// Interns a lifeline name: the identifier it already has, or the next
    /// free one.
    pub fn add_lf(&mut self, lf_name: String) -> (id: usize)
        ensures
            match position_of(old(self)@.lf_names, lf_name@) {
                Some(i) => id == i && final(self)@ == old(self)@,
                None => id == old(self)@.lf_names.len() && final(self)@ == (ContextView {
                    lf_names: old(self)@.lf_names.push(lf_name@),
                    ..old(self)@
                }),
            },
            old(self)@.well_formed() ==> final(self)@.well_formed(),
    {
        let found = find_name(&self.lf_names, lf_name.as_str());
        proof {
            lemma_position_of(old(self)@.lf_names, lf_name@, found);
        }
        match found {
            Some(i) => i,
            None => {
                let id = self.lf_names.len();
                self.lf_names.push(lf_name);
                proof {
                    assert(self@.lf_names =~= old(self)@.lf_names.push(lf_name@));
                }
                id
            },
        }
    }

    /// Interns a message name: the identifier it already has, or the next
    /// free one.
    pub fn add_msg(&mut self, ms_name: String) -> (id: usize)
        ensures
            match position_of(old(self)@.ms_names, ms_name@) {
                Some(i) => id == i && final(self)@ == old(self)@,
                None => id == old(self)@.ms_names.len() && final(self)@ == (ContextView {
                    ms_names: old(self)@.ms_names.push(ms_name@),
                    ..old(self)@
                }),
            },
            old(self)@.well_formed() ==> final(self)@.well_formed(),
    {
        let found = find_name(&self.ms_names, ms_name.as_str());
        proof {
            lemma_position_of(old(self)@.ms_names, ms_name@, found);
        }
        match found {
            Some(i) => i,
            None => {
                let id = self.ms_names.len();
                self.ms_names.push(ms_name);
                proof {
                    assert(self@.ms_names =~= old(self)@.ms_names.push(ms_name@));
                }
                id
            },
        }
    }

    /// Interns a named message type with the messages it denotes. A name
    /// that is already known keeps its identifier and its messages.
    pub fn add_mt(&mut self, mt_name: String, messages: HashSet<usize>) -> (id: usize)
        ensures
            match position_of(old(self)@.mt_names, mt_name@) {
                Some(i) => id == i && final(self)@ == old(self)@,
                None => id == old(self)@.mt_names.len() && final(self)@ == (ContextView {
                    mt_names: old(self)@.mt_names.push(mt_name@),
                    mt_messages: old(self)@.mt_messages.push(messages@),
                    ..old(self)@
                }),
            },
            old(self)@.well_formed() ==> final(self)@.well_formed(),
    {
        let found = self.get_mt_id(mt_name.as_str());
        match found {
            Some(i) => i,
            None => {
                let id = self.mt_names.len();
                self.mt_names.push(NamedMessageType { name: mt_name, messages });
                proof {
                    assert(self@.mt_names =~= old(self)@.mt_names.push(mt_name@));
                    assert(self@.mt_messages =~= old(self)@.mt_messages.push(messages@));
                }
                id
            },
        }
    }

    pub fn get_lf_id(&self, lf_name: &str) -> (r: Option<usize>)
        ensures
            r == position_of(self@.lf_names, lf_name@),
            is_position_of(self@.lf_names, lf_name@, r),
    {
        let r = find_name(&self.lf_names, lf_name);
        proof {
            lemma_position_of(self@.lf_names, lf_name@, r);
        }
        r
    }

    pub fn get_ms_id(&self, ms_name: &str) -> (r: Option<usize>)
        ensures
            r == position_of(self@.ms_names, ms_name@),
            is_position_of(self@.ms_names, ms_name@, r),
    {
        let r = find_name(&self.ms_names, ms_name);
        proof {
            lemma_position_of(self@.ms_names, ms_name@, r);
        }
        r
    }

    pub fn get_mt_id(&self, mt_name: &str) -> (r: Option<usize>)
        ensures
            r == position_of(self@.mt_names, mt_name@),
            is_position_of(self@.mt_names, mt_name@, r),
    {
        let wanted = mt_name.to_owned();
        let mut i: usize = 0;
        while i < self.mt_names.len()
            invariant
                i <= self.mt_names.len(),
                wanted@ == mt_name@,
                forall|j: int| 0 <= j < i ==> self@.mt_names[j] != mt_name@,
            decreases self.mt_names.len() - i,
        {
            if self.mt_names[i].name == wanted {
                proof {
                    lemma_position_of(self@.mt_names, mt_name@, Some(i));
                }
                return Some(i);
            }
            i += 1;
        }
        proof {
            lemma_position_of(self@.mt_names, mt_name@, None);
        }
        None
    }

    pub fn get_lf_num(&self) -> (n: usize)
        ensures
            n == self@.lf_num(),
    {
        self.lf_names.len()
    }

    pub fn get_ms_num(&self) -> (n: usize)
        ensures
            n == self@.ms_num(),
    {
        self.ms_names.len()
    }

    pub fn get_mt_num(&self) -> (n: usize)
        ensures
            n == self@.mt_num(),
    {
        self.mt_names.len()
    }

    /// The identifiers of all lifelines: `0` up to the number of lifelines.
    pub fn get_all_lfs_ids(&self) -> (r: HashSet<usize>)
        ensures
            r@ == Set::new(|lf: usize| lf < self@.lf_num()),
    {
        broadcast use vstd::std_specs::hash::group_hash_axioms;
        let n = self.lf_names.len();
        let mut r: HashSet<usize> = HashSet::new();
        let mut i: usize = 0;
        while i < n
            invariant
                i <= n,
                r@ == Set::new(|lf: usize| lf < i),
            decreases n - i,
        {
            r.insert(i);
            proof {
                assert(r@ =~= Set::new(|lf: usize| lf < i + 1));
            }
            i += 1;
        }
        r
    }

    pub fn get_lf_name(&self, lf_id: usize) -> (r: Result<String, HibouCoreError>)
        ensures
            match r {
                Ok(name) => lf_id < self@.lf_num() && name@ == self@.lf_names[lf_id as int],
                Err(e) => lf_id >= self@.lf_num() && e == HibouCoreError::UnknownLifeline(lf_id),
            },
    {
        if lf_id < self.lf_names.len() {
            Ok(self.lf_names[lf_id].clone())
        } else {
            Err(HibouCoreError::UnknownLifeline(lf_id))
        }
    }

    pub fn get_ms_name(&self, ms_id: usize) -> (r: Result<String, HibouCoreError>)
        ensures
            match r {
                Ok(name) => ms_id < self@.ms_num() && name@ == self@.ms_names[ms_id as int],
                Err(e) => ms_id >= self@.ms_num() && e == HibouCoreError::UnknownMessage(ms_id),
            },
    {
        if ms_id < self.ms_names.len() {
            Ok(self.ms_names[ms_id].clone())
        } else {
            Err(HibouCoreError::UnknownMessage(ms_id))
        }
    }

    pub fn get_mt_name(&self, mt_id: usize) -> (r: Result<String, HibouCoreError>)
        ensures
            match r {
                Ok(name) => mt_id < self@.mt_num() && name@ == self@.mt_names[mt_id as int],
                Err(e) => mt_id >= self@.mt_num() && e == HibouCoreError::UnknownMessageType(
                    mt_id,
                ),
            },
    {
        if mt_id < self.mt_names.len() {
            Ok(self.mt_names[mt_id].name.clone())
        } else {
            Err(HibouCoreError::UnknownMessageType(mt_id))
        }
    }

    pub fn get_mt_messages(&self, mt_id: usize) -> (r: Result<HashSet<usize>, HibouCoreError>)
        ensures
            match r {
                Ok(messages) => mt_id < self@.mt_num() && messages@ == self@.mt_messages[mt_id as int],
                Err(e) => mt_id >= self@.mt_num() && e == HibouCoreError::UnknownMessageType(
                    mt_id,
                ),
            },
    {
        if mt_id < self.mt_names.len() {
            Ok(set_copy(&self.mt_names[mt_id].messages))
        } else {
            Err(HibouCoreError::UnknownMessageType(mt_id))
        }
    }
}

} // verus!
