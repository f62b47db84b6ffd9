//! The account store: a name-keyed collection of accounts bound to a
//! storage file path.
//!
//! The store owns the in-memory collection and the codec; reading and
//! writing the file itself is left to the caller, who hands file contents
//! to [`Storage::load_from_contents`] and writes back what
//! [`Storage::to_json`] returns after every successful mutation, keeping
//! memory and disk consistent.

use vstd::prelude::*;

use crate::account::{Account, AccountView};
use crate::error::AppError;
use crate::json::{accounts_from_json, accounts_to_json, spec_emit_accounts, spec_parse_accounts};

verus! {

/// The mathematical value of a [`Storage`].
pub ghost struct StorageView {
    pub path: Seq<char>,
    pub accounts: Seq<AccountView>,
    pub dir_notice_logged: bool,
}

impl StorageView {
    /// Every account in the store satisfies the account invariant.
    pub open spec fn wf(self) -> bool {
        forall|i: int| 0 <= i < self.accounts.len() ==> (#[trigger] self.accounts[i]).wf()
    }

    /// The first position holding an account of this name, or -1.
    pub open spec fn find_name(self, name: Seq<char>) -> int {
        spec_find_name(self.accounts, name)
    }
}

/// The first position in `s` holding an account named `name`, or -1.
pub open spec fn spec_find_name(s: Seq<AccountView>, name: Seq<char>) -> int
    decreases s.len(),
{
    if s.len() == 0 {
        -1
    } else if s[0].name == name {
        0
    } else {
        let r = spec_find_name(s.skip(1), name);
        if r < 0 {
            -1
        } else {
            r + 1
        }
    }
}

/// The found position is in range, names an account of the looked-up
/// name, and nothing before it does; -1 means no account has the name.
pub proof fn lemma_find_name(s: Seq<AccountView>, name: Seq<char>)
    ensures
        spec_find_name(s, name) >= 0 ==> {
            &&& spec_find_name(s, name) < s.len()
            &&& s[spec_find_name(s, name)].name == name
            &&& forall|j: int| 0 <= j < spec_find_name(s, name) ==> (#[trigger] s[j]).name != name
        },
        spec_find_name(s, name) < 0 ==> forall|j: int|
            0 <= j < s.len() ==> (#[trigger] s[j]).name != name,
    decreases s.len(),
{
    if s.len() > 0 && s[0].name != name {
        lemma_find_name(s.skip(1), name);
        let r = spec_find_name(s.skip(1), name);
        if r >= 0 {
            assert(s[r + 1] == s.skip(1)[r]);
            assert(forall|j: int| 1 <= j < r + 1 ==> (#[trigger] s[j]).name == s.skip(1)[j - 1].name);
        } else {
            assert(forall|j: int| 1 <= j < s.len() ==> (#[trigger] s[j]).name == s.skip(1)[j
                - 1].name);
        }
    }
}

/// What loading file contents did.
#[derive(Debug, Clone, Copy, PartialEq, Eq, Structural)]
pub enum LoadOutcome {
    /// The contents parsed; the records are now in memory.
    Loaded,
    /// There was no file; the store starts empty.
    MissingFile,
    /// The file was empty; the store starts empty.
    EmptyFile,
    /// The contents did not parse as the record format; the store starts
    /// empty and the caller should set the unreadable file aside.
    Corrupt,
}

/// The number of occurrences of an account value in a snapshot.
pub open spec fn spec_count(s: Seq<AccountView>, a: AccountView) -> nat
    decreases s.len(),
{
    if s.len() == 0 {
        0
    } else {
        spec_count(s.skip(1), a) + if s[0] == a {
            1nat
        } else {
            0nat
        }
    }
}

/// An account store bound to a file path. The collection mirrors the
/// file: the caller persists [`Storage::to_json`] after each successful
/// mutation. The directory-creation notice flag implements the
/// once-per-store notification suppression.
pub struct Storage {
    file_path: String,
    accounts: Vec<Account>,
    dir_notice_logged: bool,
}

impl View for Storage {
    type V = StorageView;

    closed spec fn view(&self) -> StorageView {
        StorageView {
            path: self.file_path@,
            accounts: self.accounts.deep_view(),
            dir_notice_logged: self.dir_notice_logged,
        }
    }
}

impl Storage {
    /// An empty store bound to a path. The caller follows up with
    /// [`Storage::load_from_contents`], handing it what the file holds.
    pub fn new(file_path: String) -> (r: Storage)
        ensures
            r@.path == file_path@,
            r@.accounts == Seq::<AccountView>::empty(),
            !r@.dir_notice_logged,
            r@.wf(),
    {
        let r = Storage { file_path, accounts: Vec::new(), dir_notice_logged: false };
        proof {
            assert(r@.accounts =~= Seq::<AccountView>::empty());
        }
        r
    }

    /// The path of the backing file.
    pub fn file_path(&self) -> (r: &str)
        ensures
            r@ == self@.path,
    {
        self.file_path.as_str()
    }

    /// The path the unreadable file is set aside to on corruption
    /// recovery: the backing path with `.bak` appended.
    pub fn backup_path(&self) -> (r: String)
        ensures
            r@ == self@.path + ".bak"@,
    {
        proof {
            reveal_strlit(".bak");
        }
        let mut r = self.file_path.clone();
        r.append(".bak");
        r
    }

    /// Rebinds the store to a new path and discards the in-memory
    /// collection; the caller reloads from the new path with
    /// [`Storage::load_from_contents`].
    pub fn update_file_path(&mut self, new_path: &str)
        ensures
            final(self)@.path == new_path@,
            final(self)@.accounts == Seq::<AccountView>::empty(),
            final(self)@.dir_notice_logged == old(self)@.dir_notice_logged,
            final(self)@.wf(),
    {
        self.file_path = new_path.to_owned();
        self.accounts = Vec::new();
        proof {
            assert(self@.accounts =~= Seq::<AccountView>::empty());
        }
    }

    /// Notes that the storage directory was just created. The first call
    /// per store reports `true`, so the caller can notify once; later
    /// calls report `false` and the caller stays silent.
    pub fn note_directory_creation(&mut self) -> (first_time: bool)
        ensures
            first_time == !old(self)@.dir_notice_logged,
            final(self)@.dir_notice_logged,
            final(self)@.path == old(self)@.path,
            final(self)@.accounts == old(self)@.accounts,
    {
        let first_time = !self.dir_notice_logged;
        self.dir_notice_logged = true;
        first_time
    }

    /// Replaces the in-memory collection with what the backing file
    /// holds: its parsed records, or nothing when the file is absent,
    /// empty, or does not parse — the store never fails to open. The
    /// outcome tells the caller whether to set a corrupt file aside
    /// under [`Storage::backup_path`].
    pub fn load_from_contents(&mut self, contents: Option<&str>) -> (r: LoadOutcome)
        ensures
            final(self)@.path == old(self)@.path,
            final(self)@.dir_notice_logged == old(self)@.dir_notice_logged,
            final(self)@.wf(),
            (match contents {
                None => final(self)@.accounts == Seq::<AccountView>::empty() && r
                    == LoadOutcome::MissingFile,
                Some(text) => {
                    if text@.len() == 0 {
                        final(self)@.accounts == Seq::<AccountView>::empty() && r
                            == LoadOutcome::EmptyFile
                    } else {
                        match spec_parse_accounts(text@) {
                            Some(vs) => final(self)@.accounts == vs && r == LoadOutcome::Loaded,
                            None => final(self)@.accounts == Seq::<AccountView>::empty() && r
                                == LoadOutcome::Corrupt,
                        }
                    }
                },
            }),
    {
        match contents {
            None => {
                self.accounts = Vec::new();
                proof {
                    assert(self@.accounts =~= Seq::<AccountView>::empty());
                }
                LoadOutcome::MissingFile
            },
            Some(text) => {
                if text.is_empty() {
                    self.accounts = Vec::new();
                    proof {
                        assert(self@.accounts =~= Seq::<AccountView>::empty());
                    }
                    LoadOutcome::EmptyFile
                } else {
                    match accounts_from_json(text) {
                        Some(v) => {
                            self.accounts = v;
                            LoadOutcome::Loaded
                        },
                        None => {
                            self.accounts = Vec::new();
                            proof {
                                assert(self@.accounts =~= Seq::<AccountView>::empty());
                            }
                            LoadOutcome::Corrupt
                        },
                    }
                }
            },
        }
    }

    /// The exact text to persist for the current collection.
    pub fn to_json(&self) -> (r: String)
        ensures
            r@ == spec_emit_accounts(self@.accounts),
    {
        accounts_to_json(&self.accounts)
    }

    /// A snapshot of the collection; never fails.
    pub fn get_accounts(&self) -> (r: Result<Vec<Account>, AppError>)
        ensures
            r matches Ok(v) && v.deep_view() == self@.accounts,
    {
        let mut out: Vec<Account> = Vec::new();
        let mut i: usize = 0;
        while i < self.accounts.len()
            invariant
                i <= self.accounts@.len(),
                out@.len() == i,
                forall|k: int| 0 <= k < i ==> (#[trigger] out@[k])@ == self.accounts@[k]@,
            decreases self.accounts@.len() - i,
        {
            out.push(self.accounts[i].clone());
            i = i + 1;
        }
        proof {
            assert(out.deep_view() =~= self@.accounts);
        }
        Ok(out)
    }

    /// Appends an account to the collection. The caller persists
    /// [`Storage::to_json`] next.
    pub fn add_account(&mut self, account: Account) -> (r: Result<(), AppError>)
        requires
            account@.wf(),
        ensures
            r is Ok,
            final(self)@.accounts == old(self)@.accounts.push(account@),
            final(self)@.path == old(self)@.path,
            final(self)@.dir_notice_logged == old(self)@.dir_notice_logged,
            old(self)@.wf() ==> final(self)@.wf(),
    {
        let ghost av = account@;
        let ghost before = self@.accounts;
        self.accounts.push(account);
        proof {
            assert(self@.accounts =~= before.push(av));
        }
        Ok(())
    }

    /// Removes the first account of the given name, or reports
    /// `NotFound` and leaves the collection unchanged.
    pub fn delete_account(&mut self, name: &str) -> (r: Result<(), AppError>)
        ensures
            final(self)@.path == old(self)@.path,
            final(self)@.dir_notice_logged == old(self)@.dir_notice_logged,
            ({
                let idx = old(self)@.find_name(name@);
                if idx >= 0 {
                    r is Ok && final(self)@.accounts == old(self)@.accounts.remove(idx)
                } else {
                    (r matches Err(e) && e matches AppError::NotFound(n) && n@ == name@)
                        && final(self)@.accounts == old(self)@.accounts
                }
            }),
            old(self)@.wf() ==> final(self)@.wf(),
    {
        proof {
            lemma_find_name(old(self)@.accounts, name@);
        }
        let ghost before = self@.accounts;
        let ghost idx = old(self)@.find_name(name@);
        let mut i: usize = 0;
        while i < self.accounts.len()
            invariant
                self@ == old(self)@,
                before == old(self)@.accounts,
                idx == spec_find_name(before, name@),
                i <= self.accounts@.len(),
                forall|k: int| 0 <= k < i ==> (#[trigger] before[k]).name != name@,
            decreases self.accounts@.len() - i,
        {
            let matches_name = crate::strutil::str_eq(self.accounts[i].name(), name);
            proof {
                lemma_find_name(before, name@);
                assert(before.len() == self.accounts@.len());
                assert(before[i as int] == self.accounts@[i as int]@);
            }
            if matches_name {
                proof {
                    assert(before[i as int].name == name@);
                    assert(idx == i) by {
                        if idx < 0 {
                            assert(before[i as int].name != name@);
                        } else if idx < i {
                            assert(before[idx].name != name@);
                        } else if idx > i {
                            assert(before[i as int].name != name@);
                        }
                    }
                }
                self.accounts.remove(i);
                proof {
                    assert(self@.accounts =~= before.remove(idx));
                    assert forall|k: int|
                        0 <= k < self@.accounts.len() implies (#[trigger] self@.accounts[k]).wf()
                        || !old(self)@.wf() by {
                        if old(self)@.wf() {
                            if k < idx {
                                assert(self@.accounts[k] == before[k]);
                            } else {
                                assert(self@.accounts[k] == before[k + 1]);
                            }
                        }
                    }
                }
                return Ok(());
            }
            i = i + 1;
        }
        proof {
            lemma_find_name(before, name@);
            assert(idx < 0) by {
                if idx >= 0 {
                    assert(before[idx].name == name@);
                }
            }
        }
        Err(AppError::NotFound(name.to_owned()))
    }

    /// Replaces the name and issuer of the first account of the given
    /// name, preserving its secret, digit count, period and algorithm
    /// exactly; or reports `NotFound` and changes nothing.
    pub fn update_account(&mut self, old_name: &str, new_name: String, new_issuer: Option<String>)
        -> (r: Result<(), AppError>)
        ensures
            final(self)@.path == old(self)@.path,
            final(self)@.dir_notice_logged == old(self)@.dir_notice_logged,
            ({
                let idx = old(self)@.find_name(old_name@);
                if idx >= 0 {
                    r is Ok && final(self)@.accounts == old(self)@.accounts.update(
                        idx,
                        AccountView {
                            name: new_name@,
                            issuer: new_issuer.deep_view(),
                            ..old(self)@.accounts[idx]
                        },
                    )
                } else {
                    (r matches Err(e) && e matches AppError::NotFound(n) && n@ == old_name@)
                        && final(self)@.accounts == old(self)@.accounts
                }
            }),
            old(self)@.wf() ==> final(self)@.wf(),
    {
        proof {
            lemma_find_name(old(self)@.accounts, old_name@);
        }
        let ghost before = self@.accounts;
        let ghost idx = old(self)@.find_name(old_name@);
        let mut i: usize = 0;
        while i < self.accounts.len()
            invariant
                self@ == old(self)@,
                before == old(self)@.accounts,
                idx == spec_find_name(before, old_name@),
                i <= self.accounts@.len(),
                forall|k: int| 0 <= k < i ==> (#[trigger] before[k]).name != old_name@,
            decreases self.accounts@.len() - i,
        {
            let matches_name = crate::strutil::str_eq(self.accounts[i].name(), old_name);
            proof {
                lemma_find_name(before, old_name@);
                assert(before.len() == self.accounts@.len());
                assert(before[i as int] == self.accounts@[i as int]@);
            }
            if matches_name {
                proof {
                    assert(before[i as int].name == old_name@);
                    assert(idx == i) by {
                        if idx < 0 {
                            assert(before[i as int].name != old_name@);
                        } else if idx < i {
                            assert(before[idx].name != old_name@);
                        } else if idx > i {
                            assert(before[i as int].name != old_name@);
                        }
                    }
                }
                let replacement = self.accounts[i].with_identity(new_name, new_issuer);
                let ghost rv = replacement@;
                self.accounts.remove(i);
                self.accounts.insert(i, replacement);
                proof {
                    assert(self@.accounts =~= before.update(idx, rv));
                    assert forall|k: int|
                        0 <= k < self@.accounts.len() implies (#[trigger] self@.accounts[k]).wf()
                        || !old(self)@.wf() by {
                        if old(self)@.wf() {
                            if k != idx {
                                assert(self@.accounts[k] == before[k]);
                            } else {
                                assert(before[idx].wf());
                            }
                        }
                    }
                }
                return Ok(());
            }
            i = i + 1;
        }
        proof {
            lemma_find_name(before, old_name@);
            assert(idx < 0) by {
                if idx >= 0 {
                    assert(before[idx].name == old_name@);
                }
            }
        }
        Err(AppError::NotFound(old_name.to_owned()))
    }
}

/// Adding a fresh account and then listing shows it exactly once: the
/// snapshot after `add_account` counts one occurrence of an account
/// value that was not in the collection before.
pub proof fn lemma_add_then_list_once(s: Seq<AccountView>, a: AccountView)
    requires
        forall|i: int| 0 <= i < s.len() ==> (#[trigger] s[i]) != a,
    ensures
        spec_count(s.push(a), a) == 1,
    decreases s.len(),
{
    if s.len() == 0 {
        let p = s.push(a);
        assert(p[0] == a);
        assert(p.skip(1) =~= Seq::<AccountView>::empty());
        assert(spec_count(Seq::<AccountView>::empty(), a) == 0);
    } else {
        assert(s.push(a)[0] == s[0]);
        assert(s.push(a).skip(1) =~= s.skip(1).push(a));
        assert(forall|i: int| 0 <= i < s.skip(1).len() ==> (#[trigger] s.skip(1)[i]) != a);
        lemma_add_then_list_once(s.skip(1), a);
        assert(s[0] != a);
    }
}

/// The persistence round trip: the text a store writes for its
/// collection parses back to exactly that collection, every account
/// equal in all fields and in the same order.
pub proof fn lemma_save_load_round_trip(v: StorageView)
    requires
        v.wf(),
    ensures
        spec_parse_accounts(spec_emit_accounts(v.accounts)) == Some(v.accounts),
{
    crate::json::lemma_parse_emit_accounts(v.accounts);
}

/// Listing is idempotent: two snapshots of one unchanged store are the
/// same sequence of account values.
pub proof fn lemma_list_idempotent(v: StorageView, r1: Seq<AccountView>, r2: Seq<AccountView>)
    requires
        r1 == v.accounts,
        r2 == v.accounts,
    ensures
        r1 == r2,
{
}

} // verus!
