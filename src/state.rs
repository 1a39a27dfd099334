use vstd::prelude::*;

verus! {

/// A value held by a `StateBox`, tagged with its type.
pub enum StateValue {
    Bool(bool),
    Char(char),
    I32(i32),
    I64(i64),
    U32(u32),
    U64(u64),
    Usize(usize),
    Text(String),
}

/// The type tag of a `StateValue`.
#[derive(PartialEq, Eq, Structural, Clone, Copy, Debug)]
pub enum Kind {
    Bool,
    Char,
    I32,
    I64,
    U32,
    U64,
    Usize,
    Text,
}

impl StateValue {
    pub open spec fn kind(self) -> Kind {
        match self {
            StateValue::Bool(_) => Kind::Bool,
            StateValue::Char(_) => Kind::Char,
            StateValue::I32(_) => Kind::I32,
            StateValue::I64(_) => Kind::I64,
            StateValue::U32(_) => Kind::U32,
            StateValue::U64(_) => Kind::U64,
            StateValue::Usize(_) => Kind::Usize,
            StateValue::Text(_) => Kind::Text,
        }
    }
}

/// A type that a `StateBox` can hold: it goes into a `StateValue` of its own
/// kind and comes back out of one of that kind only.
pub trait Stored: Sized {
    spec fn kind() -> Kind;

    spec fn wrapped(self) -> StateValue;

    spec fn unwrapped(v: StateValue) -> Option<Self>;

    proof fn lemma_wrap_unwrap(x: Self)
        ensures
            x.wrapped().kind() == Self::kind(),
            Self::unwrapped(x.wrapped()) == Some(x),
    ;

    proof fn lemma_unwrap_kind(v: StateValue)
        ensures
            Self::unwrapped(v) is Some <==> v.kind() == Self::kind(),
    ;

    fn wrap(self) -> (r: StateValue)
        ensures
            r == self.wrapped(),
    ;

    fn unwrap_ref(v: &StateValue) -> (r: Option<&Self>)
        ensures
            match r {
                Some(x) => Self::unwrapped(*v) == Some(*x),
                None => Self::unwrapped(*v) is None,
            },
    ;

    fn unwrap(v: StateValue) -> (r: Option<Self>)
        ensures
            r == Self::unwrapped(v),
    ;
}

impl Stored for bool {
    open spec fn kind() -> Kind {
        Kind::Bool
    }

    open spec fn wrapped(self) -> StateValue {
        StateValue::Bool(self)
    }

    open spec fn unwrapped(v: StateValue) -> Option<Self> {
        match v {
            StateValue::Bool(x) => Some(x),
            _ => None,
        }
    }

    proof fn lemma_wrap_unwrap(x: Self) {
    }

    proof fn lemma_unwrap_kind(v: StateValue) {
    }

    fn wrap(self) -> (r: StateValue) {
        StateValue::Bool(self)
    }

    fn unwrap_ref(v: &StateValue) -> (r: Option<&Self>) {
        match v {
            StateValue::Bool(x) => Some(x),
            _ => None,
        }
    }

    fn unwrap(v: StateValue) -> (r: Option<Self>) {
        match v {
            StateValue::Bool(x) => Some(x),
            _ => None,
        }
    }
}

impl Stored for char {
    open spec fn kind() -> Kind {
        Kind::Char
    }

    open spec fn wrapped(self) -> StateValue {
        StateValue::Char(self)
    }

    open spec fn unwrapped(v: StateValue) -> Option<Self> {
        match v {
            StateValue::Char(x) => Some(x),
            _ => None,
        }
    }

    proof fn lemma_wrap_unwrap(x: Self) {
    }

    proof fn lemma_unwrap_kind(v: StateValue) {
    }

    fn wrap(self) -> (r: StateValue) {
        StateValue::Char(self)
    }

    fn unwrap_ref(v: &StateValue) -> (r: Option<&Self>) {
        match v {
            StateValue::Char(x) => Some(x),
            _ => None,
        }
    }

    fn unwrap(v: StateValue) -> (r: Option<Self>) {
        match v {
            StateValue::Char(x) => Some(x),
            _ => None,
        }
    }
}

impl Stored for i32 {
    open spec fn kind() -> Kind {
        Kind::I32
    }

    open spec fn wrapped(self) -> StateValue {
        StateValue::I32(self)
    }

    open spec fn unwrapped(v: StateValue) -> Option<Self> {
        match v {
            StateValue::I32(x) => Some(x),
            _ => None,
        }
    }

    proof fn lemma_wrap_unwrap(x: Self) {
    }

    proof fn lemma_unwrap_kind(v: StateValue) {
    }

    fn wrap(self) -> (r: StateValue) {
        StateValue::I32(self)
    }

    fn unwrap_ref(v: &StateValue) -> (r: Option<&Self>) {
        match v {
            StateValue::I32(x) => Some(x),
            _ => None,
        }
    }

    fn unwrap(v: StateValue) -> (r: Option<Self>) {
        match v {
            StateValue::I32(x) => Some(x),
            _ => None,
        }
    }
}

impl Stored for i64 {
    open spec fn kind() -> Kind {
        Kind::I64
    }

    open spec fn wrapped(self) -> StateValue {
        StateValue::I64(self)
    }

    open spec fn unwrapped(v: StateValue) -> Option<Self> {
        match v {
            StateValue::I64(x) => Some(x),
            _ => None,
        }
    }

    proof fn lemma_wrap_unwrap(x: Self) {
    }

    proof fn lemma_unwrap_kind(v: StateValue) {
    }

    fn wrap(self) -> (r: StateValue) {
        StateValue::I64(self)
    }

    fn unwrap_ref(v: &StateValue) -> (r: Option<&Self>) {
        match v {
            StateValue::I64(x) => Some(x),
            _ => None,
        }
    }

    fn unwrap(v: StateValue) -> (r: Option<Self>) {
        match v {
            StateValue::I64(x) => Some(x),
            _ => None,
        }
    }
}

impl Stored for u32 {
    open spec fn kind() -> Kind {
        Kind::U32
    }

    open spec fn wrapped(self) -> StateValue {
        StateValue::U32(self)
    }

    open spec fn unwrapped(v: StateValue) -> Option<Self> {
        match v {
            StateValue::U32(x) => Some(x),
            _ => None,
        }
    }

    proof fn lemma_wrap_unwrap(x: Self) {
    }

    proof fn lemma_unwrap_kind(v: StateValue) {
    }

    fn wrap(self) -> (r: StateValue) {
        StateValue::U32(self)
    }

    fn unwrap_ref(v: &StateValue) -> (r: Option<&Self>) {
        match v {
            StateValue::U32(x) => Some(x),
            _ => None,
        }
    }

    fn unwrap(v: StateValue) -> (r: Option<Self>) {
        match v {
            StateValue::U32(x) => Some(x),
            _ => None,
        }
    }
}

impl Stored for u64 {
    open spec fn kind() -> Kind {
        Kind::U64
    }

    open spec fn wrapped(self) -> StateValue {
        StateValue::U64(self)
    }

    open spec fn unwrapped(v: StateValue) -> Option<Self> {
        match v {
            StateValue::U64(x) => Some(x),
            _ => None,
        }
    }

    proof fn lemma_wrap_unwrap(x: Self) {
    }

    proof fn lemma_unwrap_kind(v: StateValue) {
    }

    fn wrap(self) -> (r: StateValue) {
        StateValue::U64(self)
    }

    fn unwrap_ref(v: &StateValue) -> (r: Option<&Self>) {
        match v {
            StateValue::U64(x) => Some(x),
            _ => None,
        }
    }

    fn unwrap(v: StateValue) -> (r: Option<Self>) {
        match v {
            StateValue::U64(x) => Some(x),
            _ => None,
        }
    }
}

impl Stored for usize {
    open spec fn kind() -> Kind {
        Kind::Usize
    }

    open spec fn wrapped(self) -> StateValue {
        StateValue::Usize(self)
    }

    open spec fn unwrapped(v: StateValue) -> Option<Self> {
        match v {
            StateValue::Usize(x) => Some(x),
            _ => None,
        }
    }

    proof fn lemma_wrap_unwrap(x: Self) {
    }

    proof fn lemma_unwrap_kind(v: StateValue) {
    }

    fn wrap(self) -> (r: StateValue) {
        StateValue::Usize(self)
    }

    fn unwrap_ref(v: &StateValue) -> (r: Option<&Self>) {
        match v {
            StateValue::Usize(x) => Some(x),
            _ => None,
        }
    }

    fn unwrap(v: StateValue) -> (r: Option<Self>) {
        match v {
            StateValue::Usize(x) => Some(x),
            _ => None,
        }
    }
}

impl Stored for String {
    open spec fn kind() -> Kind {
        Kind::Text
    }

    open spec fn wrapped(self) -> StateValue {
        StateValue::Text(self)
    }

    open spec fn unwrapped(v: StateValue) -> Option<Self> {
        match v {
            StateValue::Text(x) => Some(x),
            _ => None,
        }
    }

    proof fn lemma_wrap_unwrap(x: Self) {
    }

    proof fn lemma_unwrap_kind(v: StateValue) {
    }

    fn wrap(self) -> (r: StateValue) {
        StateValue::Text(self)
    }

    fn unwrap_ref(v: &StateValue) -> (r: Option<&Self>) {
        match v {
            StateValue::Text(x) => Some(x),
            _ => None,
        }
    }

    fn unwrap(v: StateValue) -> (r: Option<Self>) {
        match v {
            StateValue::Text(x) => Some(x),
            _ => None,
        }
    }
}


/// Why a `StateBox` operation was refused.
#[derive(PartialEq, Eq, Structural, Clone, Copy, Debug)]
pub enum StateError {
    /// `insert` on a key that is already present.
    DuplicateKey,
    /// `set` or `remove` on a key that is absent.
    KeyNotFound,
    /// `push`, which is not supported.
    Unimplemented,
}

struct Entry {
    key: String,
    value: StateValue,
}

/// A store of typed values keyed by name, shared by the handlers of one
/// command.
pub struct StateBox {
    entries: Vec<Entry>,
    model: Ghost<Map<Seq<char>, StateValue>>,
}

/// The store after `insert`: unchanged where the key is present.
pub open spec fn inserted(m: Map<Seq<char>, StateValue>, k: Seq<char>, v: StateValue) -> Map<
    Seq<char>,
    StateValue,
> {
    if m.contains_key(k) {
        m
    } else {
        m.insert(k, v)
    }
}

/// What `insert` returns.
pub open spec fn insert_result(m: Map<Seq<char>, StateValue>, k: Seq<char>) -> Result<
    (),
    StateError,
> {
    if m.contains_key(k) {
        Err(StateError::DuplicateKey)
    } else {
        Ok(())
    }
}

/// The store after `set`: unchanged where the key is absent.
pub open spec fn updated(m: Map<Seq<char>, StateValue>, k: Seq<char>, v: StateValue) -> Map<
    Seq<char>,
    StateValue,
> {
    if m.contains_key(k) {
        m.insert(k, v)
    } else {
        m
    }
}

/// What `set` and `remove` return.
pub open spec fn present_result(m: Map<Seq<char>, StateValue>, k: Seq<char>) -> Result<
    (),
    StateError,
> {
    if m.contains_key(k) {
        Ok(())
    } else {
        Err(StateError::KeyNotFound)
    }
}

/// The value of type `T` under `k`, if there is one.
pub open spec fn lookup<T: Stored>(m: Map<Seq<char>, StateValue>, k: Seq<char>) -> Option<T> {
    if m.contains_key(k) {
        T::unwrapped(m[k])
    } else {
        None
    }
}

/// The store after `pop::<T>`: the entry leaves only where it holds a `T`.
pub open spec fn popped<T: Stored>(m: Map<Seq<char>, StateValue>, k: Seq<char>) -> Map<
    Seq<char>,
    StateValue,
> {
    if lookup::<T>(m, k) is Some {
        m.remove(k)
    } else {
        m
    }
}

impl View for StateBox {
    type V = Map<Seq<char>, StateValue>;

    closed spec fn view(&self) -> Map<Seq<char>, StateValue> {
        self.model@
    }
}

impl StateBox {
    /// The entries hold distinct keys, and exactly the keys and values of the
    /// model.
    pub closed spec fn wf(&self) -> bool {
        let es = self.entries@;
        let m = self.model@;
        &&& m.dom().finite()
        &&& m.len() == es.len()
        &&& forall|i: int|
            0 <= i < es.len() ==> m.contains_key(#[trigger] es[i].key@) && m[es[i].key@]
                == es[i].value
        &&& forall|k: Seq<char>| #[trigger]
            m.contains_key(k) ==> exists|i: int| 0 <= i < es.len() && es[i].key@ == k
        &&& forall|i: int, j: int|
            0 <= i < es.len() && 0 <= j < es.len() && i != j ==> es[i].key@ != es[j].key@
    }

    pub fn new() -> (r: StateBox)
        ensures
            r.wf(),
            r@ == Map::<Seq<char>, StateValue>::empty(),
    {
        StateBox { entries: Vec::new(), model: Ghost(Map::empty()) }
    }

    /// The position of the entry under `key`.
    fn find(&self, key: &String) -> (r: Option<usize>)
        requires
            self.wf(),
        ensures
            match r {
                Some(i) => i < self.entries@.len() && self.entries@[i as int].key@ == key@,
                None => !self@.contains_key(key@),
            },
    {
        let mut i: usize = 0;
        while i < self.entries.len()
            invariant
                i <= self.entries@.len(),
                forall|m: int| 0 <= m < i ==> self.entries@[m].key@ != key@,
            decreases self.entries.len() - i,
        {
            if self.entries[i].key == *key {
                return Some(i);
            }
            i += 1;
        }
        None
    }

    /// Adds an entry under a key that is absent.
    fn add(&mut self, key: String, value: StateValue)
        requires
            old(self).wf(),
            !old(self)@.contains_key(key@),
        ensures
            final(self).wf(),
            final(self)@ == old(self)@.insert(key@, value),
    {
        let ghost k = key@;
        let ghost m = self.model@.insert(k, value);
        let ghost old_es = self.entries@;
        assert(forall|i: int| 0 <= i < old_es.len() ==> old_es[i].key@ != k);
        self.entries.push(Entry { key, value });
        self.model = Ghost(m);
        proof {
            let es = self.entries@;
            assert(es[old_es.len() as int].key@ == k);
            assert forall|q: Seq<char>| #[trigger] m.contains_key(q) implies exists|i: int|
                0 <= i < es.len() && es[i].key@ == q by {
                if q == k {
                    assert(es[old_es.len() as int].key@ == q);
                } else {
                    let i = choose|i: int| 0 <= i < old_es.len() && old_es[i].key@ == q;
                    assert(es[i].key@ == q);
                }
            }
        }
    }

    /// Replaces the value of the entry at `i`.
    fn replace_at(&mut self, i: usize, value: StateValue)
        requires
            old(self).wf(),
            i < old(self).entries@.len(),
        ensures
            final(self).wf(),
            final(self)@ == old(self)@.insert(old(self).entries@[i as int].key@, value),
    {
        let old_entry = self.entries.remove(i);
        let ghost k = old_entry.key@;
        let ghost m = self.model@.insert(k, value);
        let ghost old_es = old(self).entries@;
        self.entries.insert(i, Entry { key: old_entry.key, value });
        self.model = Ghost(m);
        proof {
            let es = self.entries@;
            assert(es.len() == old_es.len());
            assert forall|j: int| 0 <= j < es.len() && j != i implies es[j] == old_es[j] by {
                if j < i {
                    assert(es[j] == old_es[j]);
                } else {
                    assert(es[j] == old_es[j]);
                }
            }
            assert(es[i as int].key@ == k);
            assert(m.dom() =~= old(self).model@.dom());
            assert forall|q: Seq<char>| #[trigger] m.contains_key(q) implies exists|j: int|
                0 <= j < es.len() && es[j].key@ == q by {
                let j = choose|j: int| 0 <= j < old_es.len() && old_es[j].key@ == q;
                assert(es[j].key@ == q);
            }
        }
    }

    /// Removes the entry at `i`.
    fn remove_at(&mut self, i: usize) -> (r: StateValue)
        requires
            old(self).wf(),
            i < old(self).entries@.len(),
        ensures
            final(self).wf(),
            final(self)@ == old(self)@.remove(old(self).entries@[i as int].key@),
            r == old(self)@[old(self).entries@[i as int].key@],
    {
        let ghost old_es = self.entries@;
        let ghost k = old_es[i as int].key@;
        let ghost m = self.model@.remove(k);
        let entry = self.entries.remove(i);
        self.model = Ghost(m);
        proof {
            let es = self.entries@;
            assert forall|j: int| 0 <= j < es.len() implies es[j] == old_es[if j < i {
                j
            } else {
                j + 1
            }] by {}
            assert forall|q: Seq<char>| #[trigger] m.contains_key(q) implies exists|j: int|
                0 <= j < es.len() && es[j].key@ == q by {
                let j = choose|j: int| 0 <= j < old_es.len() && old_es[j].key@ == q;
                assert(j != i);
                if j < i {
                    assert(es[j].key@ == q);
                } else {
                    assert(es[j - 1].key@ == q);
                }
            }
            assert forall|a: int, b: int|
                0 <= a < es.len() && 0 <= b < es.len() && a != b implies es[a].key@
                != es[b].key@ by {
                let oa = if a < i {
                    a
                } else {
                    a + 1
                };
                let ob = if b < i {
                    b
                } else {
                    b + 1
                };
                assert(old_es[oa].key@ != old_es[ob].key@);
            }
            assert forall|j: int| 0 <= j < es.len() implies m.contains_key(#[trigger] es[j].key@)
                && m[es[j].key@] == es[j].value by {
                let oj = if j < i {
                    j
                } else {
                    j + 1
                };
                assert(old_es[oj].key@ != k);
            }
        }
        entry.value
    }

    /// Stores `value` under a new key; refuses a key that is present.
    pub fn insert<T: Stored>(&mut self, key: &str, value: T) -> (r: Result<(), StateError>)
        requires
            old(self).wf(),
        ensures
            final(self).wf(),
            r == insert_result(old(self)@, key@),
            final(self)@ == inserted(old(self)@, key@, value.wrapped()),
    {
        let k = String::from_str(key);
        match self.find(&k) {
            Some(_) => Err(StateError::DuplicateKey),
            None => {
                self.add(k, value.wrap());
                Ok(())
            },
        }
    }

    /// Deletes the entry under `key`; refuses a key that is absent.
    pub fn remove(&mut self, key: &str) -> (r: Result<(), StateError>)
        requires
            old(self).wf(),
        ensures
            final(self).wf(),
            r == present_result(old(self)@, key@),
            final(self)@ == old(self)@.remove(key@),
    {
        let k = String::from_str(key);
        match self.find(&k) {
            Some(i) => {
                self.remove_at(i);
                Ok(())
            },
            None => {
                assert(self@.remove(key@) =~= self@);
                Err(StateError::KeyNotFound)
            },
        }
    }

    /// The value under `key` where it is a `T`; nothing where the key is
    /// absent or holds another type.
    pub fn get<T: Stored>(&self, key: &str) -> (r: Option<&T>)
        requires
            self.wf(),
        ensures
            match r {
                Some(x) => lookup::<T>(self@, key@) == Some(*x),
                None => lookup::<T>(self@, key@) is None,
            },
    {
        let k = String::from_str(key);
        match self.find(&k) {
            Some(i) => T::unwrap_ref(&self.entries[i].value),
            None => None,
        }
    }

    /// Overwrites the value under `key`, of whatever type; refuses a key that
    /// is absent.
    pub fn set<T: Stored>(&mut self, key: &str, value: T) -> (r: Result<(), StateError>)
        requires
            old(self).wf(),
        ensures
            final(self).wf(),
            r == present_result(old(self)@, key@),
            final(self)@ == updated(old(self)@, key@, value.wrapped()),
    {
        let k = String::from_str(key);
        match self.find(&k) {
            Some(i) => {
                self.replace_at(i, value.wrap());
                Ok(())
            },
            None => Err(StateError::KeyNotFound),
        }
    }

    /// Not supported: always refused, and the store is left as it was.
    pub fn push<T: Stored>(&mut self, key: &str, value: T) -> (r: Result<(), StateError>)
        requires
            old(self).wf(),
        ensures
            final(self).wf(),
            r == Err::<(), StateError>(StateError::Unimplemented),
            final(self)@ == old(self)@,
    {
        Err(StateError::Unimplemented)
    }

    /// Takes the value under `key` out of the store where it is a `T`. Where
    /// the key holds another type, the entry stays and nothing is returned.
    pub fn pop<T: Stored>(&mut self, key: &str) -> (r: Option<T>)
        requires
            old(self).wf(),
        ensures
            final(self).wf(),
            r == lookup::<T>(old(self)@, key@),
            final(self)@ == popped::<T>(old(self)@, key@),
    {
        let k = String::from_str(key);
        match self.find(&k) {
            Some(i) => {
                if T::unwrap_ref(&self.entries[i].value).is_some() {
                    let v = self.remove_at(i);
                    T::unwrap(v)
                } else {
                    None
                }
            },
            None => None,
        }
    }

    /// Stores `value` under `key`, whether or not the key is present and
    /// whatever it held.
    pub fn shove<T: Stored>(&mut self, key: &str, value: T)
        requires
            old(self).wf(),
        ensures
            final(self).wf(),
            final(self)@ == old(self)@.insert(key@, value.wrapped()),
    {
        let k = String::from_str(key);
        match self.find(&k) {
            Some(i) => self.replace_at(i, value.wrap()),
            None => self.add(k, value.wrap()),
        }
    }

    /// Deletes the entry under `key` where there is one.
    pub fn yank(&mut self, key: &str)
        requires
            old(self).wf(),
        ensures
            final(self).wf(),
            final(self)@ == old(self)@.remove(key@),
    {
        let k = String::from_str(key);
        match self.find(&k) {
            Some(i) => {
                self.remove_at(i);
            },
            None => {
                assert(self@.remove(key@) =~= self@);
            },
        }
    }

    /// The number of entries.
    pub fn len(&self) -> (r: usize)
        requires
            self.wf(),
        ensures
            r == self@.len(),
    {
        self.entries.len()
    }

    pub fn is_empty(&self) -> (r: bool)
        requires
            self.wf(),
        ensures
            r == (self@.len() == 0),
    {
        self.entries.len() == 0
    }
}


impl Default for StateBox {
    fn default() -> (r: StateBox)
        ensures
            r.wf(),
            r@ == Map::<Seq<char>, StateValue>::empty(),
    {
        StateBox::new()
    }
}

/// A second `insert` under the same key is refused with `DuplicateKey`.
pub proof fn law_insert_twice_refused(
    m: Map<Seq<char>, StateValue>,
    k: Seq<char>,
    v: StateValue,
    v2: StateValue,
)
    ensures
        insert_result(inserted(m, k, v), k) == Err::<(), StateError>(StateError::DuplicateKey),
        inserted(inserted(m, k, v), k, v2) == inserted(m, k, v),
{
}

/// After a successful `insert` of a `T`, `get::<T>` gives the value back and
/// `get` at a type of another kind gives nothing.
pub proof fn law_insert_then_get<T: Stored, U: Stored>(
    m: Map<Seq<char>, StateValue>,
    k: Seq<char>,
    v: T,
)
    requires
        !m.contains_key(k),
    ensures
        insert_result(m, k) == Ok::<(), StateError>(()),
        lookup::<T>(inserted(m, k, v.wrapped()), k) == Some(v),
        U::kind() != T::kind() ==> lookup::<U>(inserted(m, k, v.wrapped()), k) is None,
{
    T::lemma_wrap_unwrap(v);
    U::lemma_unwrap_kind(v.wrapped());
}

/// `set` on an absent key is refused with `KeyNotFound` and changes nothing;
/// on a present key it succeeds, whatever type the new value has.
pub proof fn law_set<T: Stored>(m: Map<Seq<char>, StateValue>, k: Seq<char>, v: T)
    ensures
        !m.contains_key(k) ==> present_result(m, k) == Err::<(), StateError>(
            StateError::KeyNotFound,
        ) && updated(m, k, v.wrapped()) == m,
        m.contains_key(k) ==> present_result(m, k) == Ok::<(), StateError>(()) && lookup::<T>(
            updated(m, k, v.wrapped()),
            k,
        ) == Some(v),
{
    T::lemma_wrap_unwrap(v);
}

/// `shove` stores its value whatever the key held before, or whether it held
/// anything.
pub proof fn law_shove<T: Stored>(m: Map<Seq<char>, StateValue>, k: Seq<char>, v: T)
    ensures
        lookup::<T>(m.insert(k, v.wrapped()), k) == Some(v),
        m.insert(k, v.wrapped()).remove(k) == m.remove(k),
{
    T::lemma_wrap_unwrap(v);
    assert(m.insert(k, v.wrapped()).remove(k) =~= m.remove(k));
}

} // verus!
