//! The workspace registry: maps a user id to the workspaces they own and
//! allocates fresh, never-reused workspace ids. A workspace's mutable fields
//! beyond id and owner live in its document's update log, not here, so the
//! registry never edits an existing record.

use vstd::arithmetic::div_mod::lemma_fundamental_div_mod;
use vstd::prelude::*;

verus! {

/// Failures of the workspace registry.
#[derive(Debug, Clone, Copy, PartialEq, Eq, Structural)]
pub enum RegistryError {
    /// The registry's backing store failed.
    Backend,
}

impl RegistryError {
    /// A short description of the failure.
    pub fn message(&self) -> (r: String)
        ensures
            r@ == "workspace registry backend unavailable"@,
    {
        String::from_str("workspace registry backend unavailable")
    }
}

/// A workspace record: an id unique across all workspaces, a display name,
/// and the id of the owning user.
pub struct Workspace {
    pub id: String,
    pub name: String,
    pub owner_user_id: String,
}

impl Clone for Workspace {
    fn clone(&self) -> (r: Workspace)
        ensures
            r == *self,
    {
        Workspace {
            id: self.id.clone(),
            name: self.name.clone(),
            owner_user_id: self.owner_user_id.clone(),
        }
    }
}

/// The decimal digit `d` as a character.
pub open spec fn digit_char(d: nat) -> char
    recommends
        d < 10,
{
    if d == 0 {
        '0'
    } else if d == 1 {
        '1'
    } else if d == 2 {
        '2'
    } else if d == 3 {
        '3'
    } else if d == 4 {
        '4'
    } else if d == 5 {
        '5'
    } else if d == 6 {
        '6'
    } else if d == 7 {
        '7'
    } else if d == 8 {
        '8'
    } else {
        '9'
    }
}

/// The decimal digits of `n`, most significant first, with no leading zero
/// except for zero itself.
pub open spec fn dec_digits(n: nat) -> Seq<char>
    decreases n,
{
    if n < 10 {
        seq![digit_char(n)]
    } else {
        dec_digits(n / 10).push(digit_char(n % 10))
    }
}

/// The id allocated to the workspace with serial number `n`.
pub open spec fn workspace_id_chars(n: nat) -> Seq<char> {
    seq!['w', 's', '-'] + dec_digits(n)
}

/// A decimal representation never has fewer than one digit.
proof fn lemma_dec_digits_len(n: nat)
    ensures
        dec_digits(n).len() >= 1,
        n >= 10 ==> dec_digits(n).len() >= 2,
    decreases n,
{
    if n >= 10 {
        lemma_dec_digits_len(n / 10);
    }
}

/// Distinct numbers have distinct decimal representations.
proof fn lemma_dec_digits_injective(a: nat, b: nat)
    requires
        a != b,
    ensures
        dec_digits(a) != dec_digits(b),
    decreases a + b,
{
    lemma_dec_digits_len(a);
    lemma_dec_digits_len(b);
    if a < 10 && b < 10 {
        assert(dec_digits(a)[0] != dec_digits(b)[0]);
    } else if a < 10 && b >= 10 {
        assert(dec_digits(a).len() < dec_digits(b).len());
    } else if a >= 10 && b < 10 {
        assert(dec_digits(a).len() > dec_digits(b).len());
    } else {
        if dec_digits(a) == dec_digits(b) {
            let da = dec_digits(a);
            let db = dec_digits(b);
            assert(da.last() == digit_char(a % 10));
            assert(db.last() == digit_char(b % 10));
            assert(a % 10 < 10 && b % 10 < 10);
            assert(a % 10 == b % 10) by {
                if a % 10 != b % 10 {
                    assert(digit_char(a % 10) != digit_char(b % 10));
                }
            }
            assert(da.drop_last() =~= dec_digits(a / 10));
            assert(db.drop_last() =~= dec_digits(b / 10));
            assert(a / 10 == b / 10) by {
                if a / 10 != b / 10 {
                    lemma_dec_digits_injective(a / 10, b / 10);
                }
            }
            lemma_fundamental_div_mod(a as int, 10);
            lemma_fundamental_div_mod(b as int, 10);
            assert(a == b);
            assert(false);
        }
    }
}

/// Freshly allocated workspace ids never collide: two different serial
/// numbers yield two different workspace ids. Together with the contract of
/// `create_normal_workspace`, which gives the next serial number to the new
/// record and then advances it, creating a workspace twice yields two
/// distinct workspace ids.
pub proof fn lemma_workspace_ids_distinct(n1: nat, n2: nat)
    requires
        n1 != n2,
    ensures
        workspace_id_chars(n1) != workspace_id_chars(n2),
{
    lemma_dec_digits_injective(n1, n2);
    if workspace_id_chars(n1) == workspace_id_chars(n2) {
        assert(workspace_id_chars(n1).skip(3) =~= dec_digits(n1));
        assert(workspace_id_chars(n2).skip(3) =~= dec_digits(n2));
        assert(false);
    }
}

/// The decimal digit `d` as a one-character string slice.
fn digit_str(d: u64) -> (r: &'static str)
    requires
        d < 10,
    ensures
        r@ == seq![digit_char(d as nat)],
{
    proof {
        reveal_strlit("0");
        reveal_strlit("1");
        reveal_strlit("2");
        reveal_strlit("3");
        reveal_strlit("4");
        reveal_strlit("5");
        reveal_strlit("6");
        reveal_strlit("7");
        reveal_strlit("8");
        reveal_strlit("9");
    }
    if d == 0 {
        "0"
    } else if d == 1 {
        "1"
    } else if d == 2 {
        "2"
    } else if d == 3 {
        "3"
    } else if d == 4 {
        "4"
    } else if d == 5 {
        "5"
    } else if d == 6 {
        "6"
    } else if d == 7 {
        "7"
    } else if d == 8 {
        "8"
    } else {
        "9"
    }
}

/// `n` written in decimal.
fn dec_digits_string(n: u64) -> (r: String)
    ensures
        r@ == dec_digits(n as nat),
    decreases n,
{
    if n < 10 {
        String::from_str(digit_str(n))
    } else {
        let prefix = dec_digits_string(n / 10);
        prefix.concat(digit_str(n % 10))
    }
}

/// The workspace id string for serial number `n`.
fn workspace_id_string(n: u64) -> (r: String)
    ensures
        r@ == workspace_id_chars(n as nat),
{
    proof {
        reveal_strlit("ws-");
        assert("ws-"@ =~= seq!['w', 's', '-']);
    }
    let digits = dec_digits_string(n);
    String::from_str("ws-").concat(digits.as_str())
}

/// The workspaces of `records` owned by `user`, in insertion order.
pub open spec fn spec_owned_by(records: Seq<Workspace>, user: Seq<char>) -> Seq<Workspace>
    decreases records.len(),
{
    if records.len() == 0 {
        Seq::<Workspace>::empty()
    } else if records.last().owner_user_id@ == user {
        spec_owned_by(records.drop_last(), user).push(records.last())
    } else {
        spec_owned_by(records.drop_last(), user)
    }
}

/// A record added for a user appears at the end of that user's listing, and
/// does not disturb any other user's listing.
pub proof fn lemma_owned_by_push(records: Seq<Workspace>, w: Workspace, user: Seq<char>)
    ensures
        w.owner_user_id@ == user ==> spec_owned_by(records.push(w), user) == spec_owned_by(
            records,
            user,
        ).push(w),
        w.owner_user_id@ != user ==> spec_owned_by(records.push(w), user) == spec_owned_by(
            records,
            user,
        ),
{
    assert(records.push(w).last() == w);
    assert(records.push(w).drop_last() =~= records);
}

/// The registry of workspace records, with a serial counter from which fresh
/// workspace ids are minted.
///
/// The model distinguishes a working backend from a failed one: on a failed
/// backend every operation fails and nothing changes.
pub struct WorkspaceRegistry {
    records: Vec<Workspace>,
    next_serial: u64,
    backend_ok: bool,
}

impl WorkspaceRegistry {
    /// Whether the backing store can be reached at all.
    pub closed spec fn available(self) -> bool {
        self.backend_ok
    }

    /// Every workspace record, in creation order.
    pub closed spec fn records_seq(self) -> Seq<Workspace> {
        self.records@
    }

    /// The serial number the next created workspace will get.
    pub closed spec fn next_serial(self) -> nat {
        self.next_serial as nat
    }

    /// The serial number the next created workspace will get, for callers
    /// that must check it is not exhausted before creating.
    pub fn next_serial_value(&self) -> (r: u64)
        ensures
            r as nat == self.next_serial(),
    {
        self.next_serial
    }

    /// An empty, working registry.
    pub fn new() -> (s: WorkspaceRegistry)
        ensures
            s.available(),
            s.records_seq() == Seq::<Workspace>::empty(),
            s.next_serial() == 0,
    {
        let s = WorkspaceRegistry { records: Vec::new(), next_serial: 0, backend_ok: true };
        proof {
            assert(s.records_seq() =~= Seq::<Workspace>::empty());
        }
        s
    }

    /// A registry whose backend has failed: every operation on it fails.
    pub fn new_unavailable() -> (s: WorkspaceRegistry)
        ensures
            !s.available(),
            s.records_seq() == Seq::<Workspace>::empty(),
            s.next_serial() == 0,
    {
        let s = WorkspaceRegistry { records: Vec::new(), next_serial: 0, backend_ok: false };
        proof {
            assert(s.records_seq() =~= Seq::<Workspace>::empty());
        }
        s
    }

    /// Allocates a fresh unique workspace id, records the workspace for
    /// `user_id` with an empty name, and returns the new record. Fails,
    /// changing nothing, exactly when the backend has failed.
    pub fn create_normal_workspace(&mut self, user_id: String) -> (r: Result<
        Workspace,
        RegistryError,
    >)
        requires
            old(self).next_serial() < u64::MAX,
        ensures
            final(self).available() == old(self).available(),
            !old(self).available() ==> r == Err::<Workspace, RegistryError>(RegistryError::Backend)
                && *final(self) == *old(self),
            old(self).available() ==> (r matches Ok(w) && {
                &&& w.id@ == workspace_id_chars(old(self).next_serial())
                &&& w.name@ == Seq::<char>::empty()
                &&& w.owner_user_id@ == user_id@
                &&& final(self).records_seq() == old(self).records_seq().push(w)
                &&& final(self).next_serial() == old(self).next_serial() + 1
            }),
    {
        if !self.backend_ok {
            return Err(RegistryError::Backend);
        }
        let id = workspace_id_string(self.next_serial);
        let w = Workspace { id, name: String::new(), owner_user_id: user_id };
        let record = w.clone();
        self.records.push(record);
        self.next_serial = self.next_serial + 1;
        proof {
            assert(final(self).records_seq() =~= old(self).records_seq().push(w));
        }
        Ok(w)
    }

    /// Returns all workspaces owned by `user_id`, in creation order; the
    /// empty sequence when there are none. Fails exactly when the backend has
    /// failed.
    pub fn get_user_workspaces(&self, user_id: &String) -> (r: Result<
        Vec<Workspace>,
        RegistryError,
    >)
        ensures
            self.available() ==> (r matches Ok(ws) && ws@ == spec_owned_by(
                self.records_seq(),
                user_id@,
            )),
            !self.available() ==> r == Err::<Vec<Workspace>, RegistryError>(
                RegistryError::Backend,
            ),
    {
        if !self.backend_ok {
            return Err(RegistryError::Backend);
        }
        let mut out: Vec<Workspace> = Vec::new();
        let mut i: usize = 0;
        proof {
            assert(self.records@.take(0) =~= Seq::<Workspace>::empty());
            assert(out@ =~= spec_owned_by(self.records@.take(0), user_id@));
        }
        while i < self.records.len()
            invariant
                i <= self.records@.len(),
                out@ == spec_owned_by(self.records@.take(i as int), user_id@),
            decreases self.records@.len() - i,
        {
            proof {
                assert(self.records@.take(i as int + 1).last() == self.records@[i as int]);
                assert(self.records@.take(i as int + 1).drop_last() =~= self.records@.take(
                    i as int,
                ));
            }
            if self.records[i].owner_user_id == *user_id {
                out.push(self.records[i].clone());
            }
            i += 1;
        }
        proof {
            assert(self.records@.take(self.records@.len() as int) =~= self.records@);
        }
        Ok(out)
    }

    /// Updates nothing, by design: a workspace's mutable fields beyond id and
    /// owner are changed exclusively through its document's update log, so
    /// the registry keeps no second copy to edit.
    pub fn update_workspace(&self) -> (r: bool)
        ensures
            r,
    {
        true
    }
}

} // verus!
