//! The user source: the abstraction that turns a storage backend into an
//! identity verifier and mutator.
//!
//! [`MemoryUserSource`] is the storage-polymorphic contract made concrete over
//! an in-process table of rows. Each row holds the credential (and the role,
//! when the schema revision carries one) in its canonical serialized text
//! form, exactly as a persistent backend would, and the store's invariant
//! guarantees that every stored text decodes — so the read path can never
//! mistake corruption for a wrong password.
//!
//! The store is viewed as a map from username to decoded record. Lookup
//! failure and credential mismatch deliberately collapse to the same `None`:
//! a caller cannot learn whether a username exists from the outcome alone.

use crate::codec::{decode_role, encode_role, lemma_role_round_trip, spec_decoded_role};
use crate::password::{spec_hash_password, Password};
use crate::{Role, User};
use vstd::prelude::*;

verus! {

/// Credentials presented for an authentication attempt. The fields are
/// borrows that live no longer than the call: a claimed secret is never
/// stored.
pub struct IdContext<'a> {
    pub username: &'a str,
    pub password: &'a str,
}

/// The secrets presented for a credential change: the old one to verify, the
/// new one to obfuscate and store.
pub struct ChangePasswordContext<'a> {
    pub old_password: &'a str,
    pub new_password: &'a str,
}

/// A storage failure, carried verbatim from a backend.
#[derive(Debug, Clone)]
pub struct StoreError {
    pub message: String,
}

/// Failure of a credential change: either the old secret did not verify, or
/// the backend failed. The two are never conflated.
#[derive(Debug, Clone)]
pub enum ChangePasswordError {
    WrongOldPassword,
    Db(StoreError),
}

impl ChangePasswordError {
    /// A human-readable description of the failure.
    pub fn message(&self) -> (r: String)
        ensures
            match self {
                ChangePasswordError::WrongOldPassword => r@ == "Wrong old password"@,
                ChangePasswordError::Db(e) => r@ == e.message@,
            },
    {
        match self {
            ChangePasswordError::WrongOldPassword => "Wrong old password".to_owned(),
            ChangePasswordError::Db(e) => e.message.clone(),
        }
    }
}

/// One persisted row: the username, and the credential (and role, in schema
/// revisions that carry one) in canonical serialized text form.
#[derive(Debug, Clone)]
pub struct StoredUser {
    pub username: String,
    pub password_text: Vec<u8>,
    pub role_text: Option<Vec<u8>>,
}

/// The decoded content of one row, as the store's mathematical view sees it.
pub struct Record {
    pub password: Password,
    pub role: Option<Role>,
}

/// A user source over an in-process table of serialized rows.
#[derive(Debug, Clone)]
pub struct MemoryUserSource {
    pub rows: Vec<StoredUser>,
}

impl MemoryUserSource {
    /// Whether one row is well formed: its texts are canonical encodings.
    pub open spec fn row_ok(row: StoredUser) -> bool {
        &&& Password::is_encoded(row.password_text@)
        &&& match row.role_text {
            Some(t) => spec_decoded_role(t@) is Some,
            None => true,
        }
    }

    /// The store's invariant: usernames are unique — the table behaves as a
    /// primary key — and every stored text decodes.
    pub open spec fn wf(self) -> bool {
        &&& forall|i: int, j: int|
            0 <= i < j < self.rows@.len() ==> (#[trigger] self.rows@[i]).username@ != (
            #[trigger] self.rows@[j]).username@
        &&& forall|i: int| 0 <= i < self.rows@.len() ==> Self::row_ok(#[trigger] self.rows@[i])
    }

    /// Whether some row holds the username.
    pub open spec fn spec_contains(self, name: Seq<char>) -> bool {
        exists|i: int| 0 <= i < self.rows@.len() && (#[trigger] self.rows@[i]).username@ == name
    }

    /// The index of the row holding the username.
    pub open spec fn index_of(self, name: Seq<char>) -> int {
        choose|i: int| 0 <= i < self.rows@.len() && (#[trigger] self.rows@[i]).username@ == name
    }

    /// The decoded content of a row.
    pub open spec fn row_record(row: StoredUser) -> Record {
        Record {
            password: Password::spec_decoded(row.password_text@),
            role: match row.role_text {
                Some(t) => spec_decoded_role(t@),
                None => None,
            },
        }
    }

    /// The decoded record held under the username.
    pub open spec fn spec_record(self, name: Seq<char>) -> Record {
        Self::row_record(self.rows@[self.index_of(name)])
    }

    /// In a well-formed store a matching row index pins down the lookup: it
    /// is the unique row holding the username, and the view's record is its
    /// decoded content.
    pub proof fn lemma_row_pins_lookup(self, name: Seq<char>, i: int)
        requires
            self.wf(),
            0 <= i < self.rows@.len(),
            self.rows@[i].username@ == name,
        ensures
            self.spec_contains(name),
            self.index_of(name) == i,
            self@.dom().contains(name),
            self@[name] == Self::row_record(self.rows@[i]),
    {
        assert(self.spec_contains(name));
        let j = self.index_of(name);
        assert(0 <= j < self.rows@.len() && self.rows@[j].username@ == name);
        if i != j {
            if i < j {
                assert(self.rows@[i].username@ != self.rows@[j].username@);
            } else {
                assert(self.rows@[j].username@ != self.rows@[i].username@);
            }
        }
    }

    /// Create an empty source.
    pub fn new() -> (s: Self)
        ensures
            s.wf(),
            s@ == Map::<Seq<char>, Record>::empty(),
    {
        let s = MemoryUserSource { rows: Vec::new() };
        proof {
            assert(s@ =~= Map::<Seq<char>, Record>::empty());
        }
        s
    }

    /// Find the index of the row holding a username, if any.
    fn find_index(&self, username: &str) -> (r: Option<usize>)
        requires
            self.wf(),
        ensures
            match r {
                Some(i) => {
                    &&& i < self.rows@.len()
                    &&& self.rows@[i as int].username@ == username@
                    &&& self.spec_contains(username@)
                    &&& self.index_of(username@) == i
                },
                None => !self.spec_contains(username@),
            },
    {
        let uname: String = username.to_owned();
        let n = self.rows.len();
        let mut i: usize = 0;
        while i < n
            invariant
                self.wf(),
                n == self.rows@.len(),
                i <= n,
                uname@ == username@,
                forall|j: int| 0 <= j < i ==> (#[trigger] self.rows@[j]).username@ != username@,
            decreases n - i,
        {
            if self.rows[i].username == uname {
                proof {
                    self.lemma_row_pins_lookup(username@, i as int);
                }
                return Some(i);
            }
            i = i + 1;
        }
        None
    }

    /// Look up the record by username and verify the claimed secret against
    /// its stored credential. Returns the record only when the username is
    /// present and the secret re-derives the stored digest; an absent
    /// username and a wrong secret are indistinguishable, both `None`.
    ///
    /// The store's invariant proves the stored texts decode, so corruption
    /// cannot masquerade as a verification failure here.
    pub fn id(&self, cx: &IdContext<'_>) -> (r: Option<User>)
        requires
            self.wf(),
        ensures
            r is Some <==> (self@.dom().contains(cx.username@)
                && self@[cx.username@].password.spec_matches(cx.password@)),
            r matches Some(u) ==> {
                &&& u.username@ == cx.username@
                &&& u.password == self@[cx.username@].password
                &&& u.role == self@[cx.username@].role
            },
    {
        let i = match self.find_index(cx.username) {
            Some(i) => i,
            None => {
                return None;
            },
        };
        proof {
            self.lemma_row_pins_lookup(cx.username@, i as int);
            assert(Self::row_ok(self.rows@[i as int]));
        }
        let row = &self.rows[i];
        let password = match Password::decode(row.password_text.as_slice()) {
            Some(p) => p,
            None => {
                proof {
                    assert(false);
                }
                return None;
            },
        };
        let role = match &row.role_text {
            Some(t) => match decode_role(t.as_slice()) {
                Some(role) => Some(role),
                None => {
                    proof {
                        assert(false);
                    }
                    return None;
                },
            },
            None => None,
        };
        if password.matches(cx.password) {
            Some(User { username: row.username.clone(), password, role })
        } else {
            None
        }
    }

    /// Idempotently establish the record under its username: afterwards
    /// exactly one row holds the username, with the newly supplied credential
    /// and role, and every other username's record is untouched. An existing
    /// row is deleted before the insert. The in-process backend cannot fail.
    pub fn write(&mut self, user: &User) -> (r: Result<(), StoreError>)
        requires
            old(self).wf(),
        ensures
            final(self).wf(),
            r is Ok,
            final(self)@ == old(self)@.insert(
                user.username@,
                Record { password: user.password, role: user.role },
            ),
    {
        let ghost name = user.username@;
        let ghost rec = Record { password: user.password, role: user.role };
        let found = self.find_index(user.username.as_str());
        match found {
            Some(i) => {
                self.rows.remove(i);
                proof {
                    old(self).rows@.remove_ensures(i as int);
                    assert forall|j: int| 0 <= j < self.rows@.len() implies (
                    #[trigger] self.rows@[j]).username@ != name by {
                        if j < i {
                            assert(self.rows@[j] == old(self).rows@[j]);
                            assert(old(self).rows@[j].username@ != old(self).rows@[
                                i as int].username@);
                        } else {
                            assert(self.rows@[j] == old(self).rows@[j + 1]);
                            assert(old(self).rows@[i as int].username@ != old(self).rows@[j
                                + 1].username@);
                        }
                    }
                }
            },
            None => {
                proof {
                    assert forall|j: int| 0 <= j < self.rows@.len() implies (
                    #[trigger] self.rows@[j]).username@ != name by {
                        if self.rows@[j].username@ == name {
                            assert(self.spec_contains(name));
                        }
                    }
                }
            },
        }
        let ghost mid = *self;
        proof {
            lemma_removed_keeps_others(*old(self), mid, name, found);
        }
        let role_text = match &user.role {
            Some(role) => Some(encode_role(role)),
            None => None,
        };
        let row = StoredUser {
            username: user.username.clone(),
            password_text: user.password.encode(),
            role_text,
        };
        self.rows.push(row);
        proof {
            let frows = self.rows@;
            let last = frows.len() - 1;
            // The new table is well formed: the fresh row's texts are
            // canonical encodings, and its username occurs nowhere else.
            if user.role is Some {
                lemma_role_round_trip(user.role->0);
            }
            assert(Self::row_ok(frows[last]));
            assert forall|a: int, b: int| 0 <= a < b < frows.len() implies (
            #[trigger] frows[a]).username@ != (#[trigger] frows[b]).username@ by {
                if b < last {
                    assert(frows[a] == mid.rows@[a] && frows[b] == mid.rows@[b]);
                } else {
                    assert(frows[a] == mid.rows@[a]);
                }
            }
            assert(self.wf());
            self.lemma_row_pins_lookup(name, last);
            crate::codec::lemma_serialization_round_trip(user.password);
            assert(self@[name] == rec);
            // Every other username's record is exactly as it was.
            assert forall|n: Seq<char>| n != name implies (self.spec_contains(n)
                == mid.spec_contains(n) && (self.spec_contains(n) ==> self@[n] == mid@[n])) by {
                if mid.spec_contains(n) {
                    let k = mid.index_of(n);
                    assert(0 <= k < mid.rows@.len() && mid.rows@[k].username@ == n);
                    assert(self.rows@[k] == mid.rows@[k]);
                    self.lemma_row_pins_lookup(n, k);
                    mid.lemma_row_pins_lookup(n, k);
                }
                if self.spec_contains(n) {
                    let k = self.index_of(n);
                    assert(0 <= k < self.rows@.len() && self.rows@[k].username@ == n);
                    assert(k != last);
                    assert(mid.rows@[k] == self.rows@[k]);
                    assert(mid.spec_contains(n));
                }
            }
            let target = old(self)@.insert(name, rec);
            assert forall|n: Seq<char>| self@.dom().contains(n) == target.dom().contains(n) by {
                if n != name {
                    assert(self.spec_contains(n) == mid.spec_contains(n));
                    assert(mid.spec_contains(n) == old(self).spec_contains(n));
                }
            }
            assert forall|n: Seq<char>| self@.dom().contains(n) implies self@[n] == target[n] by {
                if n != name {
                    assert(self.spec_contains(n) == mid.spec_contains(n));
                    assert(mid.spec_contains(n) == old(self).spec_contains(n));
                    assert(self@[n] == mid@[n]);
                    assert(mid@[n] == old(self)@[n]);
                }
            }
            assert(self@ =~= target);
        }
        Ok(())
    }

    /// Change the stored credential: verify the old secret first, and only on
    /// success obfuscate the new secret and rewrite the record, carrying the
    /// username and role over. A wrong old secret fails with
    /// `WrongOldPassword` and mutates nothing; the in-process backend itself
    /// cannot fail, so no other error is possible.
    pub fn change_password(&mut self, username: &str, cx: &ChangePasswordContext<'_>) -> (r: Result<
        (),
        ChangePasswordError,
    >)
        requires
            old(self).wf(),
        ensures
            final(self).wf(),
            r is Ok <==> (old(self)@.dom().contains(username@)
                && old(self)@[username@].password.spec_matches(cx.old_password@)),
            r is Ok ==> {
                &&& final(self)@.dom().contains(username@)
                &&& final(self)@ == old(self)@.insert(username@, final(self)@[username@])
                &&& final(self)@[username@].role == old(self)@[username@].role
                &&& final(self)@[username@].password.hash == spec_hash_password(
                    cx.new_password@,
                    final(self)@[username@].password.salt,
                )
            },
            r is Err ==> (r matches Err(ChangePasswordError::WrongOldPassword)) && *final(self)
                == *old(self),
    {
        let id_cx = IdContext { username, password: cx.old_password };
        let user = match self.id(&id_cx) {
            Some(user) => user,
            None => {
                return Err(ChangePasswordError::WrongOldPassword);
            },
        };
        let password = Password::generate(cx.new_password);
        let user = User { username: user.username, password, role: user.role };
        match self.write(&user) {
            Ok(()) => Ok(()),
            Err(e) => Err(ChangePasswordError::Db(e)),
        }
    }
}

impl View for MemoryUserSource {
    type V = Map<Seq<char>, Record>;

    /// The store, viewed as a map from username to decoded record.
    open spec fn view(&self) -> Map<Seq<char>, Record> {
        Map::new(|n: Seq<char>| self.spec_contains(n), |n: Seq<char>| self.spec_record(n))
    }
}

/// After the delete step of a write, every username other than the written
/// one is still present with its old record, and the written one is gone.
proof fn lemma_removed_keeps_others(
    pre: MemoryUserSource,
    mid: MemoryUserSource,
    name: Seq<char>,
    found: Option<usize>,
)
    requires
        pre.wf(),
        match found {
            Some(i) => {
                &&& (i as int) < pre.rows@.len()
                &&& pre.rows@[i as int].username@ == name
                &&& mid.rows@ == pre.rows@.remove(i as int)
            },
            None => {
                &&& !pre.spec_contains(name)
                &&& mid.rows@ == pre.rows@
            },
        },
        forall|j: int| 0 <= j < mid.rows@.len() ==> (#[trigger] mid.rows@[j]).username@ != name,
    ensures
        mid.wf(),
        forall|n: Seq<char>|
            n != name ==> (#[trigger] mid.spec_contains(n)) == pre.spec_contains(n) && (
            mid.spec_contains(n) ==> mid@[n] == pre@[n]),
{
    match found {
        Some(i) => {
            let i = i as int;
            pre.rows@.remove_ensures(i);
            assert forall|a: int, b: int| 0 <= a < b < mid.rows@.len() implies (
            #[trigger] mid.rows@[a]).username@ != (#[trigger] mid.rows@[b]).username@ by {
                let pa = if a < i {
                    a
                } else {
                    a + 1
                };
                let pb = if b < i {
                    b
                } else {
                    b + 1
                };
                assert(mid.rows@[a] == pre.rows@[pa]);
                assert(mid.rows@[b] == pre.rows@[pb]);
                assert(pre.rows@[pa].username@ != pre.rows@[pb].username@);
            }
            assert forall|j: int| 0 <= j < mid.rows@.len() implies MemoryUserSource::row_ok(
                #[trigger] mid.rows@[j],
            ) by {
                let pj = if j < i {
                    j
                } else {
                    j + 1
                };
                assert(mid.rows@[j] == pre.rows@[pj]);
                assert(MemoryUserSource::row_ok(pre.rows@[pj]));
            }
            assert(mid.wf());
            assert forall|n: Seq<char>| n != name implies (#[trigger] mid.spec_contains(n))
                == pre.spec_contains(n) && (mid.spec_contains(n) ==> mid@[n] == pre@[n]) by {
                if mid.spec_contains(n) {
                    let k = mid.index_of(n);
                    assert(0 <= k < mid.rows@.len() && mid.rows@[k].username@ == n);
                    let pk = if k < i {
                        k
                    } else {
                        k + 1
                    };
                    assert(mid.rows@[k] == pre.rows@[pk]);
                    mid.lemma_row_pins_lookup(n, k);
                    pre.lemma_row_pins_lookup(n, pk);
                }
                if pre.spec_contains(n) {
                    let k = pre.index_of(n);
                    assert(0 <= k < pre.rows@.len() && pre.rows@[k].username@ == n);
                    assert(k != i);
                    let mk = if k < i {
                        k
                    } else {
                        k - 1
                    };
                    assert(mid.rows@[mk] == pre.rows@[k]);
                    assert(mid.spec_contains(n));
                }
            }
        },
        None => {
            assert(mid.wf());
            assert forall|n: Seq<char>| n != name implies (#[trigger] mid.spec_contains(n))
                == pre.spec_contains(n) && (mid.spec_contains(n) ==> mid@[n] == pre@[n]) by {
                if mid.spec_contains(n) {
                    let k = mid.index_of(n);
                    mid.lemma_row_pins_lookup(n, k);
                    pre.lemma_row_pins_lookup(n, k);
                }
            }
        },
    }
}

/// In a well-formed store a username is held by at most one row: any two
/// rows holding it are the same row. Together with a write's postcondition —
/// the username is present afterwards — this is the "exactly one record"
/// guarantee.
pub proof fn lemma_at_most_one_row(s: MemoryUserSource, name: Seq<char>, i: int, j: int)
    requires
        s.wf(),
        0 <= i < s.rows@.len(),
        0 <= j < s.rows@.len(),
        s.rows@[i].username@ == name,
        s.rows@[j].username@ == name,
    ensures
        i == j,
{
    s.lemma_row_pins_lookup(name, i);
    s.lemma_row_pins_lookup(name, j);
}

/// Idempotent write: writing twice under one username leaves exactly the
/// state that the second write alone leaves — the second credential wins,
/// and the map holds a single binding for the username.
pub proof fn lemma_write_idempotent(
    m: Map<Seq<char>, Record>,
    name: Seq<char>,
    first: Record,
    second: Record,
)
    ensures
        m.insert(name, first).insert(name, second) == m.insert(name, second),
{
    assert(m.insert(name, first).insert(name, second) =~= m.insert(name, second));
}

/// Anti-enumeration: the outcome of an authentication attempt for an absent
/// username equals the outcome for a present username with a wrong secret —
/// a caller observing return values alone cannot tell the two apart.
pub proof fn lemma_anti_enumeration(
    s: MemoryUserSource,
    absent: Seq<char>,
    absent_secret: Seq<char>,
    present: Seq<char>,
    wrong_secret: Seq<char>,
    r_absent: Option<User>,
    r_wrong: Option<User>,
)
    requires
        !s@.dom().contains(absent),
        s@.dom().contains(present),
        !s@[present].password.spec_matches(wrong_secret),
        r_absent is Some <==> (s@.dom().contains(absent) && s@[absent].password.spec_matches(
            absent_secret,
        )),
        r_wrong is Some <==> (s@.dom().contains(present) && s@[present].password.spec_matches(
            wrong_secret,
        )),
    ensures
        r_absent is None,
        r_wrong is None,
        r_absent == r_wrong,
{
}

} // verus!
