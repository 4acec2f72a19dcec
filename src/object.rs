use vstd::prelude::*;

use crate::error::Error;

verus! {

/// Names an indirect object by its number and its generation.
#[derive(Clone, Copy, Debug, PartialEq, Eq, Hash, Structural)]
pub struct ObjectId {
    pub obj_nr: u32,
    pub gen_nr: u16,
}

/// A dictionary paired with a raw byte payload.
#[derive(Debug, PartialEq, Eq)]
pub struct Stream {
    pub dictionary: Dictionary,
    pub content: Vec<u8>,
}

/// A mapping from names to values, kept as a list of entries.
///
/// When a key occurs more than once the last entry for it is the one that
/// counts; `set` never adds a second entry for a key.
#[derive(Debug, PartialEq, Eq)]
pub struct Dictionary {
    pub entries: Vec<(String, Primitive)>,
}

/// One value of the format: exactly one kind is active at a time.
#[derive(Debug, PartialEq, Eq)]
pub enum Primitive {
    Null,
    Integer(i32),
    /// A real number, held as the bit pattern of an IEEE-754 single.
    Number(u32),
    Boolean(bool),
    String(Vec<u8>),
    /// Each byte is 0-15.
    HexString(Vec<u8>),
    Stream(Stream),
    Dictionary(Dictionary),
    Array(Vec<Primitive>),
    Reference(ObjectId),
    Name(String),
}

/// An object as a writer emits it: its identifier and its value.
#[derive(Debug, PartialEq, Eq)]
pub struct IndirectObject {
    pub id: ObjectId,
    pub object: Primitive,
}

/// Every kind's label is a non-empty text.
pub proof fn lemma_kind_label_nonempty(p: Primitive)
    ensures
        p.kind_label()@.len() > 0,
{
    reveal_strlit("Integer");
    reveal_strlit("Number");
    reveal_strlit("Boolean");
    reveal_strlit("String");
    reveal_strlit("HexString");
    reveal_strlit("Stream");
    reveal_strlit("Dictionary");
    reveal_strlit("Array");
    reveal_strlit("Reference");
    reveal_strlit("Name");
    reveal_strlit("Null");
}

/// The error of reading `p` as a value of kind `expected`.
pub open spec fn wrong_type(expected: &'static str, p: Primitive) -> Error {
    Error::WrongObjectType { expected, found: p.kind_label() }
}

/// The integers of `items`, or the error of the first item that is not an
/// integer.
pub open spec fn integers_of(items: Seq<Primitive>) -> Result<Seq<i32>, Error>
    decreases items.len(),
{
    if items.len() == 0 {
        Ok(Seq::empty())
    } else {
        match integers_of(items.drop_last()) {
            Err(e) => Err(e),
            Ok(ns) => match items.last() {
                Primitive::Integer(n) => Ok(ns.push(n)),
                other => Err(wrong_type("Integer", other)),
            },
        }
    }
}

/// A result holding a vector, seen with the vector's contents.
pub open spec fn result_view(r: Result<Vec<i32>, Error>) -> Result<Seq<i32>, Error> {
    match r {
        Ok(v) => Ok(v@),
        Err(e) => Err(e),
    }
}

/// Once a prefix of `items` has failed, every longer prefix fails the same way.
pub proof fn lemma_integers_of_failure_stays(items: Seq<Primitive>, i: int)
    requires
        0 <= i <= items.len(),
        integers_of(items.subrange(0, i)) is Err,
    ensures
        integers_of(items) == integers_of(items.subrange(0, i)),
    decreases items.len() - i,
{
    if i < items.len() {
        assert(items.subrange(0, i + 1).drop_last() =~= items.subrange(0, i));
        lemma_integers_of_failure_stays(items, i + 1);
    } else {
        assert(items.subrange(0, i) =~= items);
    }
}

fn integer_items(items: &Vec<Primitive>) -> (r: Result<Vec<i32>, Error>)
    ensures
        result_view(r) == integers_of(items@),
{
    let mut out: Vec<i32> = Vec::new();
    let mut i: usize = 0;
    while i < items.len()
        invariant
            i <= items@.len(),
            integers_of(items@.subrange(0, i as int)) == Ok::<Seq<i32>, Error>(out@),
        decreases items@.len() - i,
    {
        assert(items@.subrange(0, i as int + 1).drop_last() =~= items@.subrange(0, i as int));
        match items[i].as_integer() {
            Ok(n) => {
                out.push(n);
            },
            Err(e) => {
                proof {
                    lemma_integers_of_failure_stays(items@, i as int + 1);
                }
                return Err(e);
            },
        }
        i = i + 1;
    }
    assert(items@.subrange(0, i as int) =~= items@);
    Ok(out)
}


/// The position of the last entry of `entries` under `key`, or -1.
pub open spec fn last_index(entries: Seq<(String, Primitive)>, key: Seq<char>) -> int
    decreases entries.len(),
{
    if entries.len() == 0 {
        -1
    } else if entries.last().0@ == key {
        entries.len() - 1
    } else {
        last_index(entries.drop_last(), key)
    }
}

/// The mapping that a list of entries stands for.
pub open spec fn entries_map(entries: Seq<(String, Primitive)>) -> Map<Seq<char>, Primitive> {
    Map::new(
        |k: Seq<char>| last_index(entries, k) >= 0,
        |k: Seq<char>| entries[last_index(entries, k)].1,
    )
}

/// `last_index` is the last position under the key, and -1 when there is none.
pub proof fn lemma_last_index(entries: Seq<(String, Primitive)>, key: Seq<char>)
    ensures
        -1 <= last_index(entries, key) < entries.len(),
        last_index(entries, key) >= 0 ==> entries[last_index(entries, key)].0@ == key,
        forall|j: int|
            last_index(entries, key) < j < entries.len() ==> entries[j].0@ != key,
    decreases entries.len(),
{
    if entries.len() > 0 && entries.last().0@ != key {
        lemma_last_index(entries.drop_last(), key);
        assert forall|j: int| last_index(entries, key) < j < entries.len() implies entries[j].0@
            != key by {
            if j < entries.len() - 1 {
                assert(entries.drop_last()[j] == entries[j]);
            }
        }
    }
}

/// Entries with the same keys, position by position, have the same last
/// positions.
pub proof fn lemma_last_index_same_keys(
    a: Seq<(String, Primitive)>,
    b: Seq<(String, Primitive)>,
    key: Seq<char>,
)
    requires
        a.len() == b.len(),
        forall|j: int| 0 <= j < a.len() ==> a[j].0@ == b[j].0@,
    ensures
        last_index(a, key) == last_index(b, key),
    decreases a.len(),
{
    if a.len() > 0 {
        lemma_last_index_same_keys(a.drop_last(), b.drop_last(), key);
    }
}

/// Where no entry from `m` on has the key, the prefix before `m` decides.
pub proof fn lemma_last_index_prefix(entries: Seq<(String, Primitive)>, key: Seq<char>, m: int)
    requires
        0 <= m <= entries.len(),
        forall|j: int| m <= j < entries.len() ==> entries[j].0@ != key,
    ensures
        last_index(entries, key) == last_index(entries.subrange(0, m), key),
    decreases entries.len() - m,
{
    if m < entries.len() {
        lemma_last_index_prefix(entries.drop_last(), key, m);
        assert(entries.drop_last().subrange(0, m) =~= entries.subrange(0, m));
    } else {
        assert(entries.subrange(0, m) =~= entries);
    }
}

impl Dictionary {
    /// The mapping from names to values that the dictionary holds.
    pub open spec fn view(&self) -> Map<Seq<char>, Primitive> {
        entries_map(self.entries@)
    }

    /// No two entries share a key.
    pub open spec fn wf(&self) -> bool {
        forall|i: int, j: int|
            0 <= i < j < self.entries@.len() ==> self.entries@[i].0@ != self.entries@[j].0@
    }

    /// A dictionary with no entries.
    pub fn new() -> (r: Dictionary)
        ensures
            r@ == Map::<Seq<char>, Primitive>::empty(),
            r.wf(),
    {
        let r = Dictionary { entries: Vec::new() };
        assert(r@ =~= Map::<Seq<char>, Primitive>::empty());
        r
    }

    /// The position of the last entry under `key`, if there is one.
    fn find(&self, key: &String) -> (r: Option<usize>)
        ensures
            r is None <==> last_index(self.entries@, key@) < 0,
            r matches Some(i) ==> i == last_index(self.entries@, key@),
    {
        let mut i: usize = self.entries.len();
        while i > 0
            invariant
                i <= self.entries@.len(),
                forall|j: int| i <= j < self.entries@.len() ==> self.entries@[j].0@ != key@,
            decreases i,
        {
            if self.entries[i - 1].0 == *key {
                proof {
                    lemma_last_index_prefix(self.entries@, key@, i as int);
                    assert(self.entries@.subrange(0, i as int).drop_last()
                        =~= self.entries@.subrange(0, i as int - 1));
                }
                return Some(i - 1);
            }
            i = i - 1;
        }
        proof {
            lemma_last_index_prefix(self.entries@, key@, 0);
        }
        None
    }

    /// The value under `key`, or `NotFound` naming the key.
    pub fn get(&self, key: &str) -> (r: Result<&Primitive, Error>)
        ensures
            self@.contains_key(key@) ==> (r matches Ok(v) && *v == self@[key@]),
            !self@.contains_key(key@) ==> (r matches Err(Error::NotFound { word }) && word@ == key@),
    {
        let k = String::from_str(key);
        proof {
            lemma_last_index(self.entries@, key@);
        }
        match self.find(&k) {
            Some(i) => {
                assert(self@.contains_key(key@));
                assert(self@[key@] == self.entries@[i as int].1);
                Ok(&self.entries[i].1)
            },
            None => Err(Error::NotFound { word: k }),
        }
    }

    /// Puts `value` under `key`, in place of any value that was there.
    pub fn set(&mut self, key: String, value: Primitive)
        ensures
            final(self)@ == old(self)@.insert(key@, value),
            old(self).wf() ==> final(self).wf(),
    {
        let ghost k = key@;
        let ghost v = value;
        let ghost before = self.entries@;
        match self.find(&key) {
            Some(i) => {
                proof {
                    lemma_last_index(before, k);
                }
                self.entries.set(i, (key, value));
                proof {
                    let after = self.entries@;
                    assert forall|j: int| 0 <= j < after.len() implies after[j].0@ == before[j].0@ by {}
                    assert forall|q: Seq<char>|
                        #[trigger] entries_map(after).contains_key(q)
                            == old(self)@.insert(k, v).contains_key(q)
                        && (entries_map(after).contains_key(q)
                            ==> entries_map(after)[q] == old(self)@.insert(k, v)[q]) by {
                        lemma_last_index_same_keys(after, before, q);
                        lemma_last_index(before, q);
                    }
                    assert(self@ =~= old(self)@.insert(k, v));
                }
            },
            None => {
                self.entries.push((key, value));
                proof {
                    let after = self.entries@;
                    assert(after.drop_last() =~= before);
                    assert forall|q: Seq<char>|
                        #[trigger] entries_map(after).contains_key(q)
                            == old(self)@.insert(k, v).contains_key(q)
                        && (entries_map(after).contains_key(q)
                            ==> entries_map(after)[q] == old(self)@.insert(k, v)[q]) by {
                        lemma_last_index(before, q);
                    }
                    assert(self@ =~= old(self)@.insert(k, v));
                    if old(self).wf() {
                        lemma_last_index(before, k);
                        assert forall|a: int| 0 <= a < before.len() implies before[a].0@ != k by {
                            if before[a].0@ == k {
                                lemma_last_index_prefix(before, k, a + 1);
                                assert(before.subrange(0, a + 1).drop_last() =~= before.subrange(0, a));
                            }
                        }
                    }
                }
            },
        }
    }

    /// Checks the `Type` tag against `wanted_type`; a dictionary without the
    /// tag passes.
    pub fn expect_type(&self, wanted_type: &str) -> (r: Result<(), Error>)
        ensures
            !self@.contains_key("Type"@) ==> r is Ok,
            self@.contains_key("Type"@) ==> match self@["Type"@] {
                Primitive::Name(name) => if name@ == wanted_type@ {
                    r is Ok
                } else {
                    r matches Err(Error::TypeMismatch { expected_type, found_type })
                        && expected_type@ == wanted_type@ && found_type@ == name@
                },
                _ => r matches Err(Error::Msg(_)),
            },
    {
        let wanted = String::from_str(wanted_type);
        match self.get("Type") {
            Err(_) => Ok(()),
            Ok(Primitive::Name(name)) => {
                if *name == wanted {
                    Ok(())
                } else {
                    Err(Error::TypeMismatch { expected_type: wanted, found_type: name.clone() })
                }
            },
            Ok(_) => Err(Error::Msg(String::from_str("the Type entry is not a name"))),
        }
    }

}

impl Default for Dictionary {
    fn default() -> (r: Dictionary)
        ensures
            r@ == Map::<Seq<char>, Primitive>::empty(),
            r.wf(),
    {
        Dictionary::new()
    }
}

impl Primitive {
    /// The fixed label of the active kind.
    pub open spec fn kind_label(self) -> &'static str {
        match self {
            Primitive::Integer(_) => "Integer",
            Primitive::Number(_) => "Number",
            Primitive::Boolean(_) => "Boolean",
            Primitive::String(_) => "String",
            Primitive::HexString(_) => "HexString",
            Primitive::Stream(_) => "Stream",
            Primitive::Dictionary(_) => "Dictionary",
            Primitive::Array(_) => "Array",
            Primitive::Reference(_) => "Reference",
            Primitive::Name(_) => "Name",
            Primitive::Null => "Null",
        }
    }

    /// The label of the active kind, as error messages use it.
    pub fn type_str(&self) -> (r: &'static str)
        ensures
            r == self.kind_label(),
            r@.len() > 0,
    {
        proof {
            lemma_kind_label_nonempty(*self);
        }
        match self {
            Primitive::Integer(_) => "Integer",
            Primitive::Number(_) => "Number",
            Primitive::Boolean(_) => "Boolean",
            Primitive::String(_) => "String",
            Primitive::HexString(_) => "HexString",
            Primitive::Stream(_) => "Stream",
            Primitive::Dictionary(_) => "Dictionary",
            Primitive::Array(_) => "Array",
            Primitive::Reference(_) => "Reference",
            Primitive::Name(_) => "Name",
            Primitive::Null => "Null",
        }
    }

    /// The integer this value holds.
    pub fn as_integer(&self) -> (r: Result<i32, Error>)
        ensures
            r == (match *self {
                Primitive::Integer(n) => Ok(n),
                _ => Err(wrong_type("Integer", *self)),
            }),
    {
        match self {
            Primitive::Integer(n) => Ok(*n),
            _ => Err(Error::WrongObjectType { expected: "Integer", found: self.type_str() }),
        }
    }

    /// The object this value refers to.
    pub fn as_reference(&self) -> (r: Result<ObjectId, Error>)
        ensures
            r == (match *self {
                Primitive::Reference(id) => Ok(id),
                _ => Err(wrong_type("Reference", *self)),
            }),
    {
        match self {
            Primitive::Reference(id) => Ok(*id),
            _ => Err(Error::WrongObjectType { expected: "Reference", found: self.type_str() }),
        }
    }

    /// The elements of this array, borrowed.
    pub fn as_array(&self) -> (r: Result<&Vec<Primitive>, Error>)
        ensures
            match *self {
                Primitive::Array(v) => r matches Ok(a) && *a == v,
                _ => r == Err::<&Vec<Primitive>, Error>(wrong_type("Array", *self)),
            },
    {
        match self {
            Primitive::Array(v) => Ok(v),
            _ => Err(Error::WrongObjectType { expected: "Array", found: self.type_str() }),
        }
    }

    /// The integers of this array; the first element that is not an
    /// integer decides the error.
    pub fn as_integer_array(&self) -> (r: Result<Vec<i32>, Error>)
        ensures
            result_view(r) == (match *self {
                Primitive::Array(v) => integers_of(v@),
                _ => Err(wrong_type("Array", *self)),
            }),
    {
        let items = self.as_array()?;
        integer_items(items)
    }

    /// The dictionary this value holds, borrowed.
    pub fn as_dictionary(&self) -> (r: Result<&Dictionary, Error>)
        ensures
            match *self {
                Primitive::Dictionary(d) => r matches Ok(x) && *x == d,
                _ => r == Err::<&Dictionary, Error>(wrong_type("Dictionary", *self)),
            },
    {
        match self {
            Primitive::Dictionary(d) => Ok(d),
            _ => Err(Error::WrongObjectType { expected: "Dictionary", found: self.type_str() }),
        }
    }

    /// The stream this value holds, borrowed.
    pub fn as_stream(&self) -> (r: Result<&Stream, Error>)
        ensures
            match *self {
                Primitive::Stream(st) => r matches Ok(x) && *x == st,
                _ => r == Err::<&Stream, Error>(wrong_type("Stream", *self)),
            },
    {
        match self {
            Primitive::Stream(st) => Ok(st),
            _ => Err(Error::WrongObjectType { expected: "Stream", found: self.type_str() }),
        }
    }

    /// The elements of this array.
    pub fn into_array(self) -> (r: Result<Vec<Primitive>, Error>)
        ensures
            r == (match self {
                Primitive::Array(v) => Ok(v),
                _ => Err(wrong_type("Array", self)),
            }),
    {
        match self {
            Primitive::Array(v) => Ok(v),
            _ => Err(Error::WrongObjectType { expected: "Array", found: self.type_str() }),
        }
    }

    /// The integers of this array, as `as_integer_array` reads them.
    pub fn into_integer_array(self) -> (r: Result<Vec<i32>, Error>)
        ensures
            result_view(r) == (match self {
                Primitive::Array(v) => integers_of(v@),
                _ => Err(wrong_type("Array", self)),
            }),
    {
        self.as_integer_array()
    }

    /// The dictionary this value holds.
    pub fn into_dictionary(self) -> (r: Result<Dictionary, Error>)
        ensures
            r == (match self {
                Primitive::Dictionary(d) => Ok(d),
                _ => Err(wrong_type("Dictionary", self)),
            }),
    {
        match self {
            Primitive::Dictionary(d) => Ok(d),
            _ => Err(Error::WrongObjectType { expected: "Dictionary", found: self.type_str() }),
        }
    }

    /// The stream this value holds.
    pub fn into_stream(self) -> (r: Result<Stream, Error>)
        ensures
            r == (match self {
                Primitive::Stream(st) => Ok(st),
                _ => Err(wrong_type("Stream", self)),
            }),
    {
        match self {
            Primitive::Stream(st) => Ok(st),
            _ => Err(Error::WrongObjectType { expected: "Stream", found: self.type_str() }),
        }
    }
}

} // verus!
