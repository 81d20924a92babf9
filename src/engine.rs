//! An ordered key store: records addressed by the decimal text of their
//! identifier, stored in encoded form in a key-value engine.
use vstd::prelude::*;
use crate::codec::{CodecError, Row, RowModel, ROW_SIZE, encode, decode, encode_spec, decode_spec, encode_error, row_fits, lemma_round_trip};
use crate::text::{decimal, text_eq, u32_to_decimal};

verus! {

/// The failures that the key-value engine reports.
#[derive(Clone, Copy, Debug, PartialEq, Eq, Structural)]
pub enum EngineError {
    /// No entry has the key.
    KeyNotFound,
    /// An entry with the key exists already.
    DuplicateKey,
    /// The engine's storage failed.
    Io,
}

/// The failures of a store operation.
#[derive(Clone, Copy, Debug, PartialEq, Eq, Structural)]
pub enum StoreError {
    /// The capacity-bounded store holds its maximum.
    Full,
    /// A record with the identifier exists already.
    Duplicate,
    /// No record has the identifier.
    NotFound,
    /// The record could not be encoded or decoded.
    Encoding(CodecError),
    /// Any other engine failure.
    Engine(EngineError),
}

/// The value stored last under `k` among `s`'s entries, if any.
pub open spec fn find(s: Seq<(Seq<char>, Seq<u8>)>, k: Seq<char>) -> Option<Seq<u8>>
    decreases s.len(),
{
    if s.len() == 0 {
        None
    } else if s.last().0 == k {
        Some(s.last().1)
    } else {
        find(s.drop_last(), k)
    }
}

/// An in-memory stand-in for the durable key-value engine: no durable
/// B-tree engine is linked into this crate, so what it holds is lost when the
/// process ends, and it never fails with `Io`. Entries are kept in insertion
/// order, each key once; refusing an existing key with `DuplicateKey` is this
/// engine's own documented policy, which the key store only passes on. Keys
/// are compared as text and are not kept sorted, which point lookups do not
/// need; the text order of decimal keys differs from the numeric order of
/// identifiers.
pub struct MemoryEngine {
    entries: Vec<(String, Vec<u8>)>,
}

impl View for MemoryEngine {
    type V = Seq<(Seq<char>, Seq<u8>)>;

    closed spec fn view(&self) -> Seq<(Seq<char>, Seq<u8>)> {
        self.entries@.map_values(|e: (String, Vec<u8>)| (e.0@, e.1@))
    }
}

impl MemoryEngine {
    /// An engine without entries.
    pub fn new() -> (r: MemoryEngine)
        ensures
            r@ == Seq::<(Seq<char>, Seq<u8>)>::empty(),
    {
        let r = MemoryEngine { entries: Vec::new() };
        assert(r@ =~= Seq::<(Seq<char>, Seq<u8>)>::empty());
        r
    }

    /// The value stored under `key`, or `KeyNotFound`.
    pub fn search(&self, key: &str) -> (r: Result<Vec<u8>, EngineError>)
        ensures
            match find(self@, key@) {
                Some(v) => r matches Ok(b) && b@ == v,
                None => r == Err::<Vec<u8>, EngineError>(EngineError::KeyNotFound),
            },
    {
        let mut i: usize = self.entries.len();
        assert(self@.subrange(0, i as int) =~= self@);
        while i > 0
            invariant
                i <= self.entries@.len(),
                find(self@, key@) == find(self@.subrange(0, i as int), key@),
            decreases i,
        {
            let ghost s = self@.subrange(0, i as int);
            assert(s.drop_last() =~= self@.subrange(0, i as int - 1));
            assert(s.last() == self@[i as int - 1]);
            if text_eq(self.entries[i - 1].0.as_str(), key) {
                return Ok(vstd::slice::slice_to_vec(self.entries[i - 1].1.as_slice()));
            }
            i = i - 1;
        }
        assert(self@.subrange(0, 0) =~= Seq::<(Seq<char>, Seq<u8>)>::empty());
        Err(EngineError::KeyNotFound)
    }

    /// Stores `value` under `key`, or fails with `DuplicateKey`, unchanged,
    /// when the key is present.
    pub fn insert(&mut self, key: String, value: Vec<u8>) -> (r: Result<(), EngineError>)
        ensures
            find(old(self)@, key@) is Some ==> r == Err::<(), EngineError>(EngineError::DuplicateKey)
                && final(self)@ == old(self)@,
            find(old(self)@, key@) is None ==> r is Ok && final(self)@ == old(self)@.push(
                (key@, value@),
            ),
    {
        if self.search(key.as_str()).is_ok() {
            return Err(EngineError::DuplicateKey);
        }
        let ghost before = self.entries@;
        let ghost kv = (key@, value@);
        self.entries.push((key, value));
        assert(self@ =~= before.map_values(|e: (String, Vec<u8>)| (e.0@, e.1@)).push(kv));
        Ok(())
    }
}

/// Whether every value is the encoding of some record.
pub open spec fn all_decodable(s: Seq<(Seq<char>, Seq<u8>)>) -> bool {
    forall|i: int|
        0 <= i < s.len() ==> (#[trigger] s[i]).1.len() == ROW_SIZE && decode_spec(s[i].1) is Ok
}

proof fn lemma_find_decodable(s: Seq<(Seq<char>, Seq<u8>)>, k: Seq<char>)
    requires
        all_decodable(s),
    ensures
        find(s, k) matches Some(v) ==> v.len() == ROW_SIZE && decode_spec(v) is Ok,
    decreases s.len(),
{
    if s.len() > 0 {
        assert(s.last() == s[s.len() - 1]);
        let p = s.drop_last();
        assert(all_decodable(p)) by {
            assert forall|i: int| 0 <= i < p.len() implies (#[trigger] p[i]).1.len() == ROW_SIZE
                && decode_spec(p[i].1) is Ok by {
                assert(p[i] == s[i]);
            }
        }
        lemma_find_decodable(p, k);
    }
}

/// The identifier's key: its canonical decimal text.
pub open spec fn key_of(id: u32) -> Seq<char> {
    decimal(id as nat)
}

/// Records stored in a key-value engine under the decimal text of their
/// identifier, each value the record's fixed-width encoding.
pub struct KeyStore {
    engine: MemoryEngine,
}

impl View for KeyStore {
    type V = Seq<(Seq<char>, Seq<u8>)>;

    closed spec fn view(&self) -> Seq<(Seq<char>, Seq<u8>)> {
        self.engine@
    }
}

/// The store error that an engine error stands for.
pub open spec fn store_error_of(e: EngineError) -> StoreError {
    match e {
        EngineError::KeyNotFound => StoreError::NotFound,
        EngineError::DuplicateKey => StoreError::Duplicate,
        EngineError::Io => StoreError::Engine(EngineError::Io),
    }
}

/// Maps an engine error to the store error it stands for.
pub fn map_engine_error(e: EngineError) -> (r: StoreError)
    ensures
        r == store_error_of(e),
{
    match e {
        EngineError::KeyNotFound => StoreError::NotFound,
        EngineError::DuplicateKey => StoreError::Duplicate,
        EngineError::Io => StoreError::Engine(EngineError::Io),
    }
}

/// What a lookup yields for the engine's answer: the decoded record, the
/// store error for an engine error, or `Encoding` for a value that is not an
/// encoded record.
pub open spec fn lookup_outcome(r: Result<Seq<u8>, EngineError>) -> Result<RowModel, StoreError> {
    match r {
        Err(e) => Err(store_error_of(e)),
        Ok(b) => if b.len() != ROW_SIZE {
            Err(StoreError::Encoding(CodecError::WrongLength))
        } else {
            match decode_spec(b) {
                Ok(m) => Ok(m),
                Err(c) => Err(StoreError::Encoding(c)),
            }
        },
    }
}

/// The engine key of an identifier.
pub fn key_for(id: u32) -> (r: String)
    ensures
        r@ == key_of(id),
{
    u32_to_decimal(id)
}

/// The key and value to hand to the engine for storing a record, or the
/// encoding error.
pub fn insert_entry(row: &Row) -> (r: Result<(String, Vec<u8>), StoreError>)
    ensures
        match encode_error(row@) {
            Some(e) => r matches Err(x) && x == StoreError::Encoding(e),
            None => r matches Ok(p) && p.0@ == key_of(row.id) && p.1@ == encode_spec(row@),
        },
{
    match encode(row) {
        Ok(b) => Ok((key_for(row.id), b)),
        Err(e) => Err(StoreError::Encoding(e)),
    }
}

/// What an insert yields for the engine's answer.
pub fn insert_result(r: Result<(), EngineError>) -> (s: Result<(), StoreError>)
    ensures
        match r {
            Ok(()) => s is Ok,
            Err(e) => s == Err::<(), StoreError>(store_error_of(e)),
        },
{
    match r {
        Ok(()) => Ok(()),
        Err(e) => Err(map_engine_error(e)),
    }
}

/// What a lookup yields for the engine's answer.
pub fn lookup_result(r: Result<Vec<u8>, EngineError>) -> (s: Result<Row, StoreError>)
    ensures
        match lookup_outcome(
            match r {
                Ok(b) => Ok(b@),
                Err(e) => Err(e),
            },
        ) {
            Ok(m) => s matches Ok(row) && row@ == m,
            Err(e) => s matches Err(x) && x == e,
        },
{
    match r {
        Err(e) => Err(map_engine_error(e)),
        Ok(bytes) => {
            if bytes.len() != ROW_SIZE {
                return Err(StoreError::Encoding(CodecError::WrongLength));
            }
            match decode(bytes.as_slice()) {
                Ok(row) => Ok(row),
                Err(c) => Err(StoreError::Encoding(c)),
            }
        },
    }
}

impl KeyStore {
    /// Every stored value decodes to a record.
    pub closed spec fn wf(&self) -> bool {
        all_decodable(self.engine@)
    }

    /// An empty store.
    pub fn new() -> (r: KeyStore)
        ensures
            r.wf(),
            r@ == Seq::<(Seq<char>, Seq<u8>)>::empty(),
    {
        KeyStore { engine: MemoryEngine::new() }
    }

    /// Encodes the record and stores it under its identifier's key. Fails
    /// with `Encoding` when the record does not fit its slots, and with
    /// `Duplicate` when the key is present; the store is then unchanged.
    pub fn insert(&mut self, row: &Row) -> (r: Result<(), StoreError>)
        requires
            old(self).wf(),
        ensures
            final(self).wf(),
            encode_error(row@) matches Some(e) ==> r == Err::<(), StoreError>(
                StoreError::Encoding(e),
            ) && final(self)@ == old(self)@,
            encode_error(row@) is None && find(old(self)@, key_of(row.id)) is Some ==> r
                == Err::<(), StoreError>(StoreError::Duplicate) && final(self)@ == old(self)@,
            encode_error(row@) is None && find(old(self)@, key_of(row.id)) is None ==> r is Ok
                && final(self)@ == old(self)@.push((key_of(row.id), encode_spec(row@))),
    {
        let (key, bytes) = match insert_entry(row) {
            Ok(p) => p,
            Err(e) => return Err(e),
        };
        proof {
            lemma_round_trip(row@);
        }
        let ghost before = self.engine@;
        let r = self.engine.insert(key, bytes);
        if r.is_ok() {
            assert(all_decodable(self.engine@)) by {
                assert forall|i: int| 0 <= i < self.engine@.len() implies (#[trigger] self.engine@[i]).1.len()
                    == ROW_SIZE && decode_spec(self.engine@[i].1) is Ok by {
                    if i < before.len() {
                        assert(self.engine@[i] == before[i]);
                    }
                }
            }
        }
        insert_result(r)
    }

    /// The record stored under the identifier's key; `NotFound` when there is
    /// none.
    pub fn lookup(&self, id: u32) -> (r: Result<Row, StoreError>)
        requires
            self.wf(),
        ensures
            match find(self@, key_of(id)) {
                Some(v) => r matches Ok(row) && decode_spec(v) == Ok::<RowModel, CodecError>(row@),
                None => r == Err::<Row, StoreError>(StoreError::NotFound),
            },
    {
        let key = key_for(id);
        proof {
            lemma_find_decodable(self.engine@, key@);
        }
        lookup_result(self.engine.search(key.as_str()))
    }
}

/// A record inserted under a fresh key is found again by its identifier,
/// with the same fields.
pub proof fn lemma_insert_then_lookup(s: Seq<(Seq<char>, Seq<u8>)>, r: RowModel)
    requires
        row_fits(r),
        find(s, key_of(r.id)) is None,
    ensures
        find(s.push((key_of(r.id), encode_spec(r))), key_of(r.id)) == Some(encode_spec(r)),
        decode_spec(encode_spec(r)) == Ok::<RowModel, CodecError>(r),
{
    lemma_round_trip(r);
    assert(s.push((key_of(r.id), encode_spec(r))).last() == (key_of(r.id), encode_spec(r)));
}

} // verus!
