//! The registry of names and payment-code mailboxes, and the signal ledger.
//!
//! Payment codes are mailboxes that many senders may address: a code is
//! unique as a mailbox (opening one twice is refused), while any number of
//! names may be bound to the same code. Names are unique and never rebound.
//! Every operation checks all of its preconditions before it changes
//! anything, so a refused call leaves the registry exactly as it was.

use vstd::prelude::*;
use crate::error::Error;
use crate::encoding::{as_u8_slice, bytes_equal, le_u32_seq};
use crate::base58::{base58_decoded, base58_encoded, decode_base58, encode_base58};

verus! {

/// What a registry holds: each name's payment code, each open mailbox's
/// list of signal indices (oldest first), the global signal log, in which a
/// signal's position is its index, and the outbox of signals announced by
/// posts and not yet drained by the caller.
pub struct RegistryState {
    pub users: Map<Seq<char>, Seq<u8>>,
    pub mailboxes: Map<Seq<u8>, Seq<u32>>,
    pub signals: Seq<Seq<u8>>,
    pub outbox: Seq<Seq<u8>>,
}

pub open spec fn empty_state() -> RegistryState {
    RegistryState { users: Map::empty(), mailboxes: Map::empty(), signals: Seq::empty(), outbox: Seq::empty() }
}

/// Opening a mailbox: refused when one is already open under `code`.
pub open spec fn open_mailbox_spec(s: RegistryState, code: Seq<u8>) -> (RegistryState, Result<(), Error>) {
    if s.mailboxes.contains_key(code) {
        (s, Err(Error::PaymentCodeAlreadyExists))
    } else {
        (
            RegistryState { mailboxes: s.mailboxes.insert(code, Seq::empty()), ..s },
            Ok(()),
        )
    }
}

/// Binding a name to a payment code: refused when the name is taken; opens
/// the code's mailbox if it is not open yet. Many names may share a mailbox.
pub open spec fn bind_user_spec(s: RegistryState, name: Seq<char>, code: Seq<u8>) -> (RegistryState, Result<(), Error>) {
    if s.users.contains_key(name) {
        (s, Err(Error::NameAlreadyExists))
    } else {
        let mailboxes = if s.mailboxes.contains_key(code) {
            s.mailboxes
        } else {
            s.mailboxes.insert(code, Seq::empty())
        };
        (RegistryState { users: s.users.insert(name, code), mailboxes, ..s }, Ok(()))
    }
}

/// Posting a signal to a mailbox: refused when no mailbox is open under
/// `code`, and when the log already holds `u32::MAX` signals (the next
/// index would not fit the counter); otherwise the signal takes the next
/// index of the log, and that index is appended to the mailbox; the signal
/// is also announced in the outbox.
pub open spec fn post_spec(s: RegistryState, code: Seq<u8>, signal: Seq<u8>) -> (RegistryState, Result<u32, Error>) {
    if !s.mailboxes.contains_key(code) {
        (s, Err(Error::PaymentCodeDoesntExist))
    } else if s.signals.len() >= u32::MAX {
        (s, Err(Error::SignalIndexExhausted))
    } else {
        let index = s.signals.len() as u32;
        (
            RegistryState {
                users: s.users,
                mailboxes: s.mailboxes.insert(code, s.mailboxes[code].push(index)),
                signals: s.signals.push(signal),
                outbox: s.outbox.push(signal),
            },
            Ok(index),
        )
    }
}

/// The record announcing a posted signal to whoever watches the ledger.
#[derive(Debug, PartialEq, Eq)]
pub struct PersonalPaymentCodeSignallingPost {
    pub signal: Vec<u8>,
}

/// The directory of names and mailboxes together with the signal ledger.
pub struct MasterPaymentCode {
    user_names: Vec<String>,
    user_codes: Vec<Vec<u8>>,
    mailbox_codes: Vec<Vec<u8>>,
    mailbox_signals: Vec<Vec<u32>>,
    payment_signals: Vec<Vec<u8>>,
    outbox: Vec<PersonalPaymentCodeSignallingPost>,
    users: Ghost<Map<Seq<char>, Seq<u8>>>,
    mailboxes: Ghost<Map<Seq<u8>, Seq<u32>>>,
}

impl View for MasterPaymentCode {
    type V = RegistryState;

    closed spec fn view(&self) -> RegistryState {
        RegistryState {
            users: self.users@,
            mailboxes: self.mailboxes@,
            signals: self.payment_signals@.map_values(|v: Vec<u8>| v@),
            outbox: self.outbox@.map_values(|p: PersonalPaymentCodeSignallingPost| p.signal@),
        }
    }
}

fn copy_bytes(v: &Vec<u8>) -> (r: Vec<u8>)
    ensures
        r@ == v@,
{
    let r = v.clone();
    assert(r@ =~= v@);
    r
}

fn copy_indices(v: &Vec<u32>) -> (r: Vec<u32>)
    ensures
        r@ == v@,
{
    let r = v.clone();
    assert(r@ =~= v@);
    r
}

/// `keys` and `vals` list the entries of `m`, one per position, with no key
/// listed twice.
#[verifier::opaque]
spec fn keyed<K, V>(keys: Seq<K>, vals: Seq<V>, m: Map<K, V>) -> bool {
    &&& keys.len() == vals.len()
    &&& forall|i: int, j: int| 0 <= i < keys.len() && 0 <= j < keys.len() && i != j ==> keys[i] != keys[j]
    &&& forall|i: int| #![trigger keys[i]] 0 <= i < keys.len() ==> m.contains_key(keys[i]) && m[keys[i]] == vals[i]
    &&& forall|k: K| #[trigger] m.contains_key(k) ==> exists|i: int| 0 <= i < keys.len() && keys[i] == k
}

proof fn lemma_keyed_at<K, V>(keys: Seq<K>, vals: Seq<V>, m: Map<K, V>, i: int)
    requires
        keyed(keys, vals, m),
        0 <= i < keys.len(),
    ensures
        keys.len() == vals.len(),
        m.contains_key(keys[i]),
        m[keys[i]] == vals[i],
{
    reveal(keyed);
}

proof fn lemma_keyed_absent<K, V>(keys: Seq<K>, vals: Seq<V>, m: Map<K, V>, k: K)
    requires
        keyed(keys, vals, m),
        forall|i: int| 0 <= i < keys.len() ==> keys[i] != k,
    ensures
        !m.contains_key(k),
{
    reveal(keyed);
}

proof fn lemma_keyed_empty<K, V>()
    ensures
        keyed(Seq::<K>::empty(), Seq::<V>::empty(), Map::<K, V>::empty()),
{
    reveal(keyed);
}

proof fn lemma_keyed_insert<K, V>(keys: Seq<K>, vals: Seq<V>, m: Map<K, V>, k: K, v: V)
    requires
        keyed(keys, vals, m),
        !m.contains_key(k),
    ensures
        keyed(keys.push(k), vals.push(v), m.insert(k, v)),
{
    reveal(keyed);
    let nk = keys.push(k);
    let nv = vals.push(v);
    let nm = m.insert(k, v);
    let n = keys.len() as int;
    assert forall|i: int, j: int| 0 <= i < nk.len() && 0 <= j < nk.len() && i != j implies nk[i] != nk[j] by {
        if i < n && j < n {
            assert(nk[i] == keys[i] && nk[j] == keys[j]);
        } else if i < n {
            assert(m.contains_key(keys[i]));
        } else {
            assert(m.contains_key(keys[j]));
        }
    }
    assert forall|i: int| #![trigger nk[i]] 0 <= i < nk.len() implies nm.contains_key(nk[i]) && nm[nk[i]] == nv[i] by {
        if i < n {
            assert(nk[i] == keys[i]);
            assert(m.contains_key(keys[i]));
        }
    }
    assert forall|q: K| #[trigger] nm.contains_key(q) implies exists|i: int| 0 <= i < nk.len() && nk[i] == q by {
        if q == k {
            assert(nk[n] == k);
        } else {
            assert(m.contains_key(q));
            let i = choose|i: int| 0 <= i < keys.len() && keys[i] == q;
            assert(nk[i] == q);
        }
    }
}

proof fn lemma_keyed_update<K, V>(keys: Seq<K>, vals: Seq<V>, m: Map<K, V>, j: int, v: V)
    requires
        keyed(keys, vals, m),
        0 <= j < keys.len(),
    ensures
        keyed(keys, vals.update(j, v), m.insert(keys[j], v)),
{
    reveal(keyed);
    let nv = vals.update(j, v);
    let nm = m.insert(keys[j], v);
    assert forall|i: int| #![trigger keys[i]] 0 <= i < keys.len() implies nm.contains_key(keys[i]) && nm[keys[i]] == nv[i] by {
        if i != j {
            assert(keys[i] != keys[j]);
        }
    }
    assert forall|q: K| #[trigger] nm.contains_key(q) implies exists|i: int| 0 <= i < keys.len() && keys[i] == q by {
        if q != keys[j] {
            assert(m.contains_key(q));
        }
    }
}

/// Every index in a mailbox names a logged signal, and the log's length
/// fits a `u32`.
spec fn log_ok(mailboxes: Map<Seq<u8>, Seq<u32>>, len: nat) -> bool {
    &&& forall|k: Seq<u8>, j: int|
        mailboxes.contains_key(k) && 0 <= j < mailboxes[k].len() ==> #[trigger] mailboxes[k][j] < len
    &&& len <= u32::MAX
}

proof fn lemma_log_ok_open(mailboxes: Map<Seq<u8>, Seq<u32>>, len: nat, code: Seq<u8>)
    requires
        log_ok(mailboxes, len),
    ensures
        log_ok(mailboxes.insert(code, Seq::empty()), len),
{
    let nm = mailboxes.insert(code, Seq::empty());
    assert forall|k: Seq<u8>, j: int| nm.contains_key(k) && 0 <= j < nm[k].len() implies #[trigger] nm[k][j] < len by {
        assert(k != code);
        assert(mailboxes.contains_key(k));
    }
}

proof fn lemma_log_ok_post(mailboxes: Map<Seq<u8>, Seq<u32>>, len: nat, code: Seq<u8>)
    requires
        log_ok(mailboxes, len),
        mailboxes.contains_key(code),
        len < u32::MAX,
    ensures
        log_ok(mailboxes.insert(code, mailboxes[code].push(len as u32)), len + 1),
{
    let nm = mailboxes.insert(code, mailboxes[code].push(len as u32));
    assert forall|k: Seq<u8>, j: int| nm.contains_key(k) && 0 <= j < nm[k].len() implies #[trigger] nm[k][j] < len + 1 by {
        if k == code && j == nm[k].len() - 1 {
        } else {
            assert(mailboxes.contains_key(k));
            assert(mailboxes[k][j] < len);
        }
    }
}

impl MasterPaymentCode {
    spec fn user_keys(&self) -> Seq<Seq<char>> {
        Seq::new(self.user_names@.len(), |i: int| self.user_names@[i]@)
    }

    spec fn user_vals(&self) -> Seq<Seq<u8>> {
        Seq::new(self.user_codes@.len(), |i: int| self.user_codes@[i]@)
    }

    spec fn box_keys(&self) -> Seq<Seq<u8>> {
        Seq::new(self.mailbox_codes@.len(), |i: int| self.mailbox_codes@[i]@)
    }

    spec fn box_vals(&self) -> Seq<Seq<u32>> {
        Seq::new(self.mailbox_signals@.len(), |i: int| self.mailbox_signals@[i]@)
    }

    /// The store's internal consistency: the lists mirror the two maps with
    /// unique keys, every index in a mailbox names a logged signal, and the
    /// log's length fits a `u32`.
    pub closed spec fn wf(&self) -> bool {
        &&& self.user_names@.len() == self.user_codes@.len()
        &&& self.mailbox_codes@.len() == self.mailbox_signals@.len()
        &&& keyed(self.user_keys(), self.user_vals(), self.users@)
        &&& keyed(self.box_keys(), self.box_vals(), self.mailboxes@)
        &&& log_ok(self.mailboxes@, self.payment_signals@.len())
    }

    /// An empty registry.
    pub fn new() -> (r: MasterPaymentCode)
        ensures
            r.wf(),
            r@ == empty_state(),
    {
        let r = MasterPaymentCode {
            user_names: Vec::new(),
            user_codes: Vec::new(),
            mailbox_codes: Vec::new(),
            mailbox_signals: Vec::new(),
            payment_signals: Vec::new(),
            outbox: Vec::new(),
            users: Ghost(Map::empty()),
            mailboxes: Ghost(Map::empty()),
        };
        proof {
            lemma_keyed_empty::<Seq<char>, Seq<u8>>();
            lemma_keyed_empty::<Seq<u8>, Seq<u32>>();
            assert(r.user_keys() =~= Seq::<Seq<char>>::empty());
            assert(r.user_vals() =~= Seq::<Seq<u8>>::empty());
            assert(r.box_keys() =~= Seq::<Seq<u8>>::empty());
            assert(r.box_vals() =~= Seq::<Seq<u32>>::empty());
        }
        assert(r@.signals =~= Seq::<Seq<u8>>::empty());
        assert(r@.outbox =~= Seq::<Seq<u8>>::empty());
        r
    }

    fn find_user(&self, name: &String) -> (r: Option<usize>)
        requires
            self.wf(),
        ensures
            match r {
                Some(i) => i < self.user_names@.len() && self.user_names@[i as int]@ == name@
                    && self@.users.contains_key(name@) && self@.users[name@] == self.user_codes@[i as int]@,
                None => !self@.users.contains_key(name@),
            },
    {
        let mut i: usize = 0;
        while i < self.user_names.len()
            invariant
                self.wf(),
                i <= self.user_names@.len(),
                forall|j: int| 0 <= j < i ==> #[trigger] self.user_keys()[j] != name@,
            decreases self.user_names@.len() - i,
        {
            if self.user_names[i] == *name {
                proof {
                    lemma_keyed_at(self.user_keys(), self.user_vals(), self.users@, i as int);
                }
                return Some(i);
            }
            i = i + 1;
        }
        proof {
            lemma_keyed_absent(self.user_keys(), self.user_vals(), self.users@, name@);
        }
        None
    }

    fn find_mailbox(&self, code: &Vec<u8>) -> (r: Option<usize>)
        requires
            self.wf(),
        ensures
            match r {
                Some(i) => i < self.mailbox_codes@.len() && self.mailbox_codes@[i as int]@ == code@
                    && self@.mailboxes.contains_key(code@)
                    && self@.mailboxes[code@] == self.mailbox_signals@[i as int]@,
                None => !self@.mailboxes.contains_key(code@),
            },
    {
        let mut i: usize = 0;
        while i < self.mailbox_codes.len()
            invariant
                self.wf(),
                i <= self.mailbox_codes@.len(),
                forall|j: int| 0 <= j < i ==> #[trigger] self.box_keys()[j] != code@,
            decreases self.mailbox_codes@.len() - i,
        {
            if bytes_equal(self.mailbox_codes[i].as_slice(), code.as_slice()) {
                proof {
                    lemma_keyed_at(self.box_keys(), self.box_vals(), self.mailboxes@, i as int);
                }
                return Some(i);
            }
            i = i + 1;
        }
        proof {
            lemma_keyed_absent(self.box_keys(), self.box_vals(), self.mailboxes@, code@);
        }
        None
    }

    fn insert_mailbox(&mut self, code: Vec<u8>)
        requires
            old(self).wf(),
            !old(self)@.mailboxes.contains_key(code@),
        ensures
            final(self).wf(),
            final(self)@ == (RegistryState {
                mailboxes: old(self)@.mailboxes.insert(code@, Seq::empty()),
                ..old(self)@
            }),
    {
        let ghost c = code@;
        let ghost keys = self.box_keys();
        let ghost vals = self.box_vals();
        let ghost m = self.mailboxes@;
        self.mailbox_codes.push(code);
        self.mailbox_signals.push(Vec::new());
        self.mailboxes = Ghost(self.mailboxes@.insert(c, Seq::empty()));
        proof {
            assert(self.box_keys() =~= keys.push(c));
            assert(self.box_vals() =~= vals.push(Seq::empty()));
            lemma_keyed_insert(keys, vals, m, c, Seq::empty());
            lemma_log_ok_open(m, self.payment_signals@.len(), c);
            assert(self.user_keys() =~= old(self).user_keys());
            assert(self.user_vals() =~= old(self).user_vals());
        }
    }

    /// Opens an empty mailbox under the payment code `code`.
    pub fn open_mailbox(&mut self, code: Vec<u8>) -> (r: Result<(), Error>)
        requires
            old(self).wf(),
        ensures
            final(self).wf(),
            (final(self)@, r) == open_mailbox_spec(old(self)@, code@),
    {
        if self.find_mailbox(&code).is_some() {
            return Err(Error::PaymentCodeAlreadyExists);
        }
        self.insert_mailbox(code);
        Ok(())
    }

    /// Binds `name` to the payment code `code`, opening the code's mailbox
    /// if it is not open yet.
    pub fn bind_user(&mut self, name: String, code: Vec<u8>) -> (r: Result<(), Error>)
        requires
            old(self).wf(),
        ensures
            final(self).wf(),
            (final(self)@, r) == bind_user_spec(old(self)@, name@, code@),
    {
        if self.find_user(&name).is_some() {
            return Err(Error::NameAlreadyExists);
        }
        if self.find_mailbox(&code).is_none() {
            let c = copy_bytes(&code);
            self.insert_mailbox(c);
        }
        let ghost n = name@;
        let ghost c = code@;
        let ghost keys = self.user_keys();
        let ghost vals = self.user_vals();
        let ghost m = self.users@;
        let ghost bkeys = self.box_keys();
        let ghost bvals = self.box_vals();
        self.user_names.push(name);
        self.user_codes.push(code);
        self.users = Ghost(self.users@.insert(n, c));
        proof {
            assert(self.user_keys() =~= keys.push(n));
            assert(self.user_vals() =~= vals.push(c));
            lemma_keyed_insert(keys, vals, m, n, c);
            assert(self.box_keys() =~= bkeys);
            assert(self.box_vals() =~= bvals);
        }
        Ok(())
    }

    /// Appends `signal` to the ledger and its index to the mailbox of
    /// `code`; refused when no index is left.
    pub fn post(&mut self, code: &Vec<u8>, signal: Vec<u8>) -> (r: Result<u32, Error>)
        requires
            old(self).wf(),
        ensures
            final(self).wf(),
            (final(self)@, r) == post_spec(old(self)@, code@, signal@),
    {
        let j = match self.find_mailbox(code) {
            None => return Err(Error::PaymentCodeDoesntExist),
            Some(j) => j,
        };
        if self.payment_signals.len() >= 4294967295 {
            return Err(Error::SignalIndexExhausted);
        }
        let index = self.payment_signals.len() as u32;
        let ghost c = code@;
        let ghost s = signal@;
        let ghost keys = self.box_keys();
        let ghost vals = self.box_vals();
        let ghost m = self.mailboxes@;
        let ghost ukeys = self.user_keys();
        let ghost uvals = self.user_vals();
        let mut list = copy_indices(&self.mailbox_signals[j]);
        list.push(index);
        let ghost new_list = list@;
        self.mailbox_signals.set(j, list);
        self.outbox.push(PersonalPaymentCodeSignallingPost { signal: copy_bytes(&signal) });
        self.payment_signals.push(signal);
        self.mailboxes = Ghost(self.mailboxes@.insert(c, self.mailboxes@[c].push(index)));
        proof {
            assert(keys[j as int] == c);
            assert(self.box_keys() =~= keys);
            assert(self.box_vals() =~= vals.update(j as int, new_list));
            lemma_keyed_update(keys, vals, m, j as int, new_list);
            lemma_log_ok_post(m, old(self).payment_signals@.len(), c);
            assert(self.user_keys() =~= ukeys);
            assert(self.user_vals() =~= uvals);
            assert(self@.signals =~= old(self)@.signals.push(s));
            assert(self@.outbox =~= old(self)@.outbox.push(s));
        }
        Ok(index)
    }

    /// The payment code bound to `name`, if any.
    pub fn payment_code_of(&self, name: &String) -> (r: Option<Vec<u8>>)
        requires
            self.wf(),
        ensures
            match r {
                Some(c) => self@.users.contains_key(name@) && c@ == self@.users[name@],
                None => !self@.users.contains_key(name@),
            },
    {
        match self.find_user(name) {
            Some(i) => Some(copy_bytes(&self.user_codes[i])),
            None => None,
        }
    }

    /// The indices of the signals posted to the mailbox of `code`, oldest first.
    pub fn list_mailbox(&self, code: &Vec<u8>) -> (r: Result<Vec<u32>, Error>)
        requires
            self.wf(),
        ensures
            match r {
                Ok(v) => self@.mailboxes.contains_key(code@) && v@ == self@.mailboxes[code@],
                Err(e) => !self@.mailboxes.contains_key(code@) && e == Error::PaymentCodeDoesntExist,
            },
    {
        match self.find_mailbox(code) {
            Some(i) => Ok(copy_indices(&self.mailbox_signals[i])),
            None => Err(Error::PaymentCodeDoesntExist),
        }
    }

    /// The signal logged at `index`, if one is.
    pub fn get_signal(&self, index: u32) -> (r: Option<Vec<u8>>)
        requires
            self.wf(),
        ensures
            match r {
                Some(s) => index < self@.signals.len() && s@ == self@.signals[index as int],
                None => index >= self@.signals.len(),
            },
    {
        if (index as usize) < self.payment_signals.len() {
            Some(copy_bytes(&self.payment_signals[index as usize]))
        } else {
            None
        }
    }

    /// The announcement of the signal logged at `index`, if one is.
    pub fn signalling_post(&self, index: u32) -> (r: Option<PersonalPaymentCodeSignallingPost>)
        requires
            self.wf(),
        ensures
            match r {
                Some(p) => index < self@.signals.len() && p.signal@ == self@.signals[index as int],
                None => index >= self@.signals.len(),
            },
    {
        match self.get_signal(index) {
            Some(signal) => Some(PersonalPaymentCodeSignallingPost { signal }),
            None => None,
        }
    }

    /// Hands over the announcements in the outbox, oldest first, and empties it.
    pub fn drain_events(&mut self) -> (r: Vec<PersonalPaymentCodeSignallingPost>)
        requires
            old(self).wf(),
        ensures
            final(self).wf(),
            r@.map_values(|p: PersonalPaymentCodeSignallingPost| p.signal@) == old(self)@.outbox,
            final(self)@ == (RegistryState { outbox: Seq::empty(), ..old(self)@ }),
    {
        let mut r: Vec<PersonalPaymentCodeSignallingPost> = Vec::new();
        std::mem::swap(&mut r, &mut self.outbox);
        assert(self@.outbox =~= Seq::<Seq<u8>>::empty());
        r
    }

    /// How many signals the ledger holds; the next post takes this index.
    pub fn signal_count(&self) -> (r: usize)
        requires
            self.wf(),
        ensures
            r == self@.signals.len(),
    {
        self.payment_signals.len()
    }

    /// Whether a mailbox is open under `code`.
    pub fn has_mailbox(&self, code: &Vec<u8>) -> (r: bool)
        requires
            self.wf(),
        ensures
            r == self@.mailboxes.contains_key(code@),
    {
        self.find_mailbox(code).is_some()
    }
}

} // verus!

verus! {

impl MasterPaymentCode {
    /// Opens a mailbox under the payment code written in base58 as
    /// `plain_payment_code`.
    pub fn set_pcode(&mut self, plain_payment_code: String) -> (r: Result<(), Error>)
        requires
            old(self).wf(),
        ensures
            final(self).wf(),
            match base58_decoded(plain_payment_code@) {
                None => r == Err::<(), Error>(Error::IncorrectPaymentCodeLength) && final(self)@ == old(self)@,
                Some(c) => (final(self)@, r) == open_mailbox_spec(old(self)@, c),
            },
    {
        match decode_base58(&plain_payment_code) {
            Some(code) => self.open_mailbox(code),
            None => Err(Error::IncorrectPaymentCodeLength),
        }
    }

    /// Binds the name `key` to the payment code written in base58 as
    /// `plain_payment_code`, opening its mailbox if needed. A taken name is
    /// refused before the code is read.
    pub fn set_user(&mut self, key: String, plain_payment_code: String) -> (r: Result<(), Error>)
        requires
            old(self).wf(),
        ensures
            final(self).wf(),
            old(self)@.users.contains_key(key@) ==> r == Err::<(), Error>(Error::NameAlreadyExists)
                && final(self)@ == old(self)@,
            !old(self)@.users.contains_key(key@) ==> match base58_decoded(plain_payment_code@) {
                None => r == Err::<(), Error>(Error::IncorrectPaymentCodeLength) && final(self)@ == old(self)@,
                Some(c) => (final(self)@, r) == bind_user_spec(old(self)@, key@, c),
            },
    {
        if self.find_user(&key).is_some() {
            return Err(Error::NameAlreadyExists);
        }
        match decode_base58(&plain_payment_code) {
            Some(code) => self.bind_user(key, code),
            None => Err(Error::IncorrectPaymentCodeLength),
        }
    }

    /// Posts the signal written in base58 as `masked_payment_code` to the
    /// mailbox of the code written in base58 as `recipient_payment_code`,
    /// and returns the index it was given.
    pub fn set_signal(&mut self, recipient_payment_code: String, masked_payment_code: String) -> (r: Result<u32, Error>)
        requires
            old(self).wf(),
        ensures
            final(self).wf(),
            match base58_decoded(recipient_payment_code@) {
                None => r == Err::<u32, Error>(Error::IncorrectPaymentCodeLength) && final(self)@ == old(self)@,
                Some(c) => if !old(self)@.mailboxes.contains_key(c) {
                    r == Err::<u32, Error>(Error::PaymentCodeDoesntExist) && final(self)@ == old(self)@
                } else {
                    match base58_decoded(masked_payment_code@) {
                        None => r == Err::<u32, Error>(Error::IncorrectPaymentSignalLength)
                            && final(self)@ == old(self)@,
                        Some(s) => (final(self)@, r) == post_spec(old(self)@, c, s),
                    }
                },
            },
    {
        let code = match decode_base58(&recipient_payment_code) {
            Some(code) => code,
            None => return Err(Error::IncorrectPaymentCodeLength),
        };
        if self.find_mailbox(&code).is_none() {
            return Err(Error::PaymentCodeDoesntExist);
        }
        match decode_base58(&masked_payment_code) {
            Some(signal) => self.post(&code, signal),
            None => Err(Error::IncorrectPaymentSignalLength),
        }
    }

    /// The signal indices of the mailbox whose code is written in base58 as
    /// `plain_payment_code`, packed as little-endian `u32`s and written in
    /// base58.
    pub fn get_codes(&self, plain_payment_code: String) -> (r: Result<String, Error>)
        requires
            self.wf(),
        ensures
            match base58_decoded(plain_payment_code@) {
                None => r == Err::<String, Error>(Error::IncorrectPaymentCodeLength),
                Some(c) => match r {
                    Ok(s) => self@.mailboxes.contains_key(c)
                        && s@ == base58_encoded(le_u32_seq(self@.mailboxes[c])),
                    Err(e) => !self@.mailboxes.contains_key(c) && e == Error::PaymentCodeDoesntExist,
                },
            },
    {
        let code = match decode_base58(&plain_payment_code) {
            Some(code) => code,
            None => return Err(Error::IncorrectPaymentCodeLength),
        };
        let list = self.list_mailbox(&code)?;
        let packed = as_u8_slice(list.as_slice());
        Ok(encode_base58(&packed))
    }
}

} // verus!
