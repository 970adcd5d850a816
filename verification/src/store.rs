//! The backing key-value store, modelled exactly: two logical records
//! per clause instance (`data` and `state`), each a flat attribute set,
//! and an atomic increment of the numeric `counter` attribute on the
//! state record. The increment is the one hard concurrency contract of
//! the system: it is read-modify-write in a single step, so two calls
//! never observe or produce the same post-increment value.

use vstd::prelude::*;
use crate::types::HandlerError;
use crate::num::{parse_dec, dec_of_int, parse_i64, i64_to_string, lemma_dec_round_trip};

verus! {

/// One stored attribute value: a string or a number kept as decimal
/// text, as the backing store keeps numbers.
pub enum AttrValue {
    S(String),
    N(String),
}

/// Spec-level value of an [`AttrValue`].
#[verifier::ext_equal]
pub enum AttrV {
    S(Seq<char>),
    N(Seq<char>),
}

impl View for AttrValue {
    type V = AttrV;

    open spec fn view(&self) -> AttrV {
        match self {
            AttrValue::S(s) => AttrV::S(s@),
            AttrValue::N(s) => AttrV::N(s@),
        }
    }
}

impl AttrValue {
    /// A copy with the same value.
    pub fn duplicate(&self) -> (r: AttrValue)
        ensures
            r@ == self@,
    {
        match self {
            AttrValue::S(s) => AttrValue::S(s.clone()),
            AttrValue::N(s) => AttrValue::N(s.clone()),
        }
    }
}

/// A record: a flat set of named attributes, in stored order.
pub struct Record {
    pub attrs: Vec<(String, AttrValue)>,
}

/// Spec-level value of a [`Record`].
pub type RecordV = Seq<(Seq<char>, AttrV)>;

impl View for Record {
    type V = RecordV;

    open spec fn view(&self) -> RecordV {
        self.attrs@.map_values(|kv: (String, AttrValue)| (kv.0@, kv.1@))
    }
}

/// Index of the first attribute with the given name, or -1.
pub open spec fn rv_idx(r: RecordV, name: Seq<char>) -> int
    decreases r.len(),
{
    if r.len() == 0 {
        -1
    } else if r[0].0 == name {
        0
    } else {
        let k = rv_idx(r.drop_first(), name);
        if k < 0 { -1 } else { k + 1 }
    }
}

/// The first attribute with the given name, if any.
pub open spec fn rv_get(r: RecordV, name: Seq<char>) -> Option<AttrV> {
    if rv_idx(r, name) >= 0 {
        Some(r[rv_idx(r, name)].1)
    } else {
        None
    }
}

/// The record with the first attribute of the given name replaced.
pub open spec fn rv_set(r: RecordV, name: Seq<char>, v: AttrV) -> RecordV {
    if rv_idx(r, name) >= 0 {
        r.update(rv_idx(r, name), (name, v))
    } else {
        r
    }
}

/// `rv_idx` finds the first match and stays inside the record.
pub proof fn lemma_rv_idx_bounds(r: RecordV, name: Seq<char>)
    ensures
        rv_idx(r, name) >= 0 ==> rv_idx(r, name) < r.len() && r[rv_idx(r, name)].0 == name,
        rv_idx(r, name) >= 0 ==> forall|j: int| 0 <= j < rv_idx(r, name) ==> r[j].0 != name,
        rv_idx(r, name) < 0 ==> forall|j: int| 0 <= j < r.len() ==> r[j].0 != name,
    decreases r.len(),
{
    if r.len() > 0 && r[0].0 != name {
        lemma_rv_idx_bounds(r.drop_first(), name);
        assert forall|j: int| 1 <= j < r.len() implies r.drop_first()[j - 1] == r[j] by {}
    }
}

/// A scan that saw no match up to a matching position pins `rv_idx`.
pub proof fn lemma_rv_idx_found(r: RecordV, name: Seq<char>, i: int)
    requires
        0 <= i < r.len(),
        r[i].0 == name,
        forall|j: int| 0 <= j < i ==> r[j].0 != name,
    ensures
        rv_idx(r, name) == i,
    decreases i,
{
    if i > 0 {
        lemma_rv_idx_found(r.drop_first(), name, i - 1);
    }
}

/// After replacing an attribute, reading it gives the new value and
/// every other position is untouched.
pub proof fn lemma_rv_get_set(r: RecordV, name: Seq<char>, v: AttrV)
    requires
        rv_get(r, name) is Some,
    ensures
        rv_get(rv_set(r, name, v), name) == Some(v),
        rv_set(r, name, v).len() == r.len(),
        forall|j: int| 0 <= j < r.len() && j != rv_idx(r, name)
            ==> rv_set(r, name, v)[j] == r[j],
{
    let i = rv_idx(r, name);
    lemma_rv_idx_bounds(r, name);
    let r2 = rv_set(r, name, v);
    assert forall|j: int| 0 <= j < i implies r2[j].0 != name by {}
    lemma_rv_idx_found(r2, name, i);
}

impl Record {
    /// A record with no attributes.
    pub fn empty() -> (r: Record)
        ensures
            r@ =~= Seq::<(Seq<char>, AttrV)>::empty(),
    {
        let r = Record { attrs: Vec::new() };
        proof {
            assert(r@ =~= Seq::<(Seq<char>, AttrV)>::empty());
        }
        r
    }

    /// Appends an attribute.
    pub fn push_attr(&mut self, name: &str, v: AttrValue)
        ensures
            final(self)@ =~= old(self)@.push((name@, v@)),
    {
        let ghost v0 = self@;
        self.attrs.push((String::from_str(name), v));
        proof {
            assert(final(self)@ =~= v0.push((name@, v@)));
        }
    }

    /// The first attribute with the given name, if any.
    pub fn get(&self, name: &str) -> (r: Option<&AttrValue>)
        ensures
            match r {
                Some(v) => rv_get(self@, name@) == Some(v@),
                None => rv_get(self@, name@) is None,
            },
    {
        let key = String::from_str(name);
        let n = self.attrs.len();
        let mut i: usize = 0;
        while i < n
            invariant
                n == self.attrs.len(),
                i <= n,
                key@ == name@,
                forall|j: int| 0 <= j < i ==> self@[j].0 != name@,
            decreases n - i,
        {
            if self.attrs[i].0 == key {
                proof {
                    lemma_rv_idx_found(self@, name@, i as int);
                }
                return Some(&self.attrs[i].1);
            }
            i = i + 1;
        }
        proof {
            lemma_rv_idx_bounds(self@, name@);
            if rv_idx(self@, name@) >= 0 {
                assert(self@[rv_idx(self@, name@)].0 == name@);
            }
        }
        None
    }

    /// Index of the first attribute with the given name, if any.
    pub fn find_idx(&self, name: &str) -> (r: Option<usize>)
        ensures
            match r {
                Some(i) => rv_idx(self@, name@) == i && i < self@.len(),
                None => rv_idx(self@, name@) < 0,
            },
    {
        let key = String::from_str(name);
        let n = self.attrs.len();
        let mut i: usize = 0;
        while i < n
            invariant
                n == self.attrs.len(),
                i <= n,
                key@ == name@,
                forall|j: int| 0 <= j < i ==> self@[j].0 != name@,
            decreases n - i,
        {
            if self.attrs[i].0 == key {
                proof {
                    assert(self@[i as int].0 == name@);
                    lemma_rv_idx_found(self@, name@, i as int);
                }
                return Some(i);
            }
            proof {
                assert(self@[i as int].0 == self.attrs@[i as int].0@);
            }
            i = i + 1;
        }
        proof {
            lemma_rv_idx_bounds(self@, name@);
            if rv_idx(self@, name@) >= 0 {
                assert(self@[rv_idx(self@, name@)].0 == name@);
            }
        }
        None
    }

    /// A copy of the record with the attribute at one position given a
    /// new value, keeping its name.
    pub fn with_replaced(&self, idx: usize, v: &AttrValue) -> (r: Record)
        requires
            idx < self@.len(),
        ensures
            r@ =~= self@.update(idx as int, (self@[idx as int].0, v@)),
    {
        let n = self.attrs.len();
        let mut out: Vec<(String, AttrValue)> = Vec::new();
        let mut j: usize = 0;
        while j < n
            invariant
                n == self.attrs.len(),
                idx < n,
                j <= n,
                out@.len() == j,
                forall|k: int| 0 <= k < j
                    ==> (#[trigger] out@[k]).0@ == self@[k].0
                        && out@[k].1@ == (if k == idx { v@ } else { self@[k].1 }),
            decreases n - j,
        {
            if j == idx {
                out.push((self.attrs[j].0.clone(), v.duplicate()));
            } else {
                out.push((self.attrs[j].0.clone(), self.attrs[j].1.duplicate()));
            }
            j = j + 1;
        }
        let r = Record { attrs: out };
        proof {
            assert(r@.len() == self@.len());
            assert(r@ =~= self@.update(idx as int, (self@[idx as int].0, v@)));
        }
        r
    }
}

/// The backing store: one `data` record and one `state` record per
/// clause instance, each possibly absent.
pub struct Store {
    pub data: Option<Record>,
    pub state: Option<Record>,
}

/// Spec-level value of a [`Store`].
#[verifier::ext_equal]
pub struct StoreV {
    pub data: Option<RecordV>,
    pub state: Option<RecordV>,
}

impl View for Store {
    type V = StoreV;

    open spec fn view(&self) -> StoreV {
        StoreV {
            data: match self.data {
                Some(r) => Some(r@),
                None => None,
            },
            state: match self.state {
                Some(r) => Some(r@),
                None => None,
            },
        }
    }
}

/// The two logical keys a clause instance owns in the store.
#[derive(Clone, Copy, Debug, PartialEq, Eq, Structural)]
pub enum StoreKey {
    Data,
    State,
}

impl Store {
    /// A store holding neither record: a never-constructed instance.
    pub fn new() -> (s: Store)
        ensures
            s@.data is None,
            s@.state is None,
    {
        Store { data: None, state: None }
    }
}

/// Fetches the record at the given key; absence is not an error.
pub fn get_data(store: &Store, key: StoreKey) -> (r: Option<&Record>)
    ensures
        key == StoreKey::Data ==> match r {
            Some(rec) => store@.data == Some(rec@),
            None => store@.data is None,
        },
        key == StoreKey::State ==> match r {
            Some(rec) => store@.state == Some(rec@),
            None => store@.state is None,
        },
{
    match key {
        StoreKey::Data => store.data.as_ref(),
        StoreKey::State => store.state.as_ref(),
    }
}

/// Unconditionally upserts the record at the given key, overwriting
/// whatever was there.
pub fn put(store: &mut Store, key: StoreKey, rec: Record)
    ensures
        key == StoreKey::Data ==> final(store)@.data == Some(rec@)
            && final(store)@.state == old(store)@.state,
        key == StoreKey::State ==> final(store)@.state == Some(rec@)
            && final(store)@.data == old(store)@.data,
{
    match key {
        StoreKey::Data => {
            store.data = Some(rec);
        },
        StoreKey::State => {
            store.state = Some(rec);
        },
    }
}

/// The counter the state record holds, read as a 64-bit integer, or
/// the error that reading it raises: `FieldMissing` when the record or
/// the attribute is absent, `TypeMismatch` when the attribute is not
/// numeric text in range.
pub open spec fn counter_of(s: StoreV) -> Result<int, HandlerError> {
    match s.state {
        None => Err(HandlerError::FieldMissing),
        Some(rec) => match rv_get(rec, "counter"@) {
            None => Err(HandlerError::FieldMissing),
            Some(AttrV::S(_)) => Err(HandlerError::TypeMismatch),
            Some(AttrV::N(txt)) => match parse_dec(txt) {
                None => Err(HandlerError::TypeMismatch),
                Some(v) => if i64::MIN as int <= v <= i64::MAX as int {
                    Ok(v)
                } else {
                    Err(HandlerError::TypeMismatch)
                },
            },
        },
    }
}

/// The store after one successful counter increment.
pub open spec fn incremented(s: StoreV) -> StoreV
    recommends
        counter_of(s) is Ok,
{
    match (s.state, counter_of(s)) {
        (Some(rec), Ok(v)) => StoreV {
            data: s.data,
            state: Some(rv_set(rec, "counter"@, AttrV::N(dec_of_int(v + 1)))),
        },
        _ => s,
    }
}

/// Atomically adds one to the `counter` attribute of the state record
/// and returns the post-increment value. The read, the add and the
/// write are one step against the store: no concurrent caller can
/// interleave between them.
pub fn increment_counter(store: &mut Store) -> (r: Result<i64, HandlerError>)
    ensures
        match counter_of(old(store)@) {
            Err(e) => r == Err::<i64, HandlerError>(e) && final(store)@ == old(store)@,
            Ok(v) => if v < i64::MAX as int {
                r == Ok::<i64, HandlerError>((v + 1) as i64)
                    && final(store)@ == incremented(old(store)@)
            } else {
                r == Err::<i64, HandlerError>(HandlerError::TypeMismatch)
                    && final(store)@ == old(store)@
            },
        },
{
    let found: Result<(usize, i64), HandlerError> = match &store.state {
        None => Err(HandlerError::FieldMissing),
        Some(rec) => match rec.find_idx("counter") {
            None => Err(HandlerError::FieldMissing),
            Some(idx) => {
                proof {
                    assert(rec@[idx as int].1 == rec.attrs@[idx as int].1@);
                }
                match &rec.attrs[idx].1 {
                    AttrValue::S(_) => Err(HandlerError::TypeMismatch),
                    AttrValue::N(txt) => match parse_i64(txt.as_str()) {
                        None => Err(HandlerError::TypeMismatch),
                        Some(v) => if v == i64::MAX {
                            Err(HandlerError::TypeMismatch)
                        } else {
                            Ok((idx, v))
                        },
                    },
                }
            },
        },
    };
    match found {
        Err(e) => Err(e),
        Ok((idx, v)) => {
            let new_v = v + 1;
            let txt = i64_to_string(new_v);
            proof {
                lemma_dec_round_trip(new_v as int);
            }
            let new_rec = match &store.state {
                Some(rec) => rec.with_replaced(idx, &AttrValue::N(txt)),
                None => Record::empty(),
            };
            store.state = Some(new_rec);
            proof {
                let s0 = old(store)@;
                let rec0 = s0.state->Some_0;
                lemma_rv_get_set(rec0, "counter"@, AttrV::N(dec_of_int(v as int + 1)));
                lemma_rv_idx_bounds(rec0, "counter"@);
                assert(final(store)@.state->Some_0
                    =~= rv_set(rec0, "counter"@, AttrV::N(dec_of_int(v as int + 1))));
                assert(final(store)@ =~= incremented(s0));
            }
            Ok(new_v)
        },
    }
}

} // verus!
