//! User accounts and the current user
//!
//! A fixed table of user records, each with a name, a password hash and
//! credentials, and the user currently logged in.

use vstd::prelude::*;
use vstd::utf8::{valid_utf8, decode_utf8};
use crate::text::str_from_utf8;

verus! {

pub const MAX_USERS: usize = 16;
pub const MAX_NAME_LEN: usize = 32;
pub const MAX_PASSWORD_LEN: usize = 64;

/// FNV-1a offset basis and prime (64-bit).
pub const FNV_OFFSET: u64 = 0xcbf29ce484222325;
pub const FNV_PRIME: u64 = 0x100000001b3;

#[derive(Clone, Copy, Debug, PartialEq, Eq, Structural)]
pub struct Credentials {
    pub uid: u32,
    pub gid: u32,
    pub is_admin: bool,
}

#[derive(Clone, Copy, Debug)]
pub struct UserSummary {
    pub username: [u8; 32],
    pub username_len: usize,
    pub uid: u32,
    pub gid: u32,
    pub is_admin: bool,
}

#[derive(Clone, Copy, Debug)]
pub struct CurrentUser {
    pub username: [u8; 32],
    pub username_len: usize,
    pub credentials: Credentials,
}

/// One slot of the user table.
#[derive(Clone, Copy, Debug)]
pub struct UserRecord {
    pub used: bool,
    pub username: [u8; 32],
    pub username_len: usize,
    pub password_hash: u64,
    pub uid: u32,
    pub gid: u32,
    pub is_admin: bool,
}

#[derive(Debug, PartialEq, Eq, Structural)]
pub enum AuthError {
    InvalidInput,
    AlreadyExists,
    TableFull,
    InvalidCredentials,
    AccessDenied,
}

/// The 64-bit FNV-1a hash of a byte string.
pub open spec fn fnv1a(s: Seq<u8>) -> u64
    decreases s.len(),
{
    if s.len() == 0 {
        FNV_OFFSET
    } else {
        (fnv1a(s.drop_last()) ^ (s.last() as u64)).wrapping_mul(FNV_PRIME)
    }
}

/// A record's name.
pub open spec fn rec_name(r: UserRecord) -> Seq<u8> {
    r.username@.take(r.username_len as int)
}

/// The first of the first `n` records in use with this name and hash.
pub open spec fn first_login(users: Seq<UserRecord>, name: Seq<u8>, hash: u64, n: int) -> Option<int>
    decreases n,
{
    if n <= 0 {
        None
    } else {
        match first_login(users, name, hash, n - 1) {
            Some(i) => Some(i),
            None => if users[n - 1].used && rec_name(users[n - 1]) == name
                && users[n - 1].password_hash == hash {
                Some(n - 1)
            } else {
                None
            },
        }
    }
}

/// The records in use, in table order.
pub open spec fn used_users(s: Seq<UserRecord>) -> Seq<UserRecord>
    decreases s.len(),
{
    if s.len() == 0 {
        Seq::empty()
    } else if s.last().used {
        used_users(s.drop_last()).push(s.last())
    } else {
        used_users(s.drop_last())
    }
}

/// Some record in use has this name.
pub open spec fn name_taken(users: Seq<UserRecord>, name: Seq<u8>) -> bool {
    exists|i: int| 0 <= i < users.len() && #[trigger] users[i].used && rec_name(users[i]) == name
}

/// The first unused slot among the first `n`.
pub open spec fn first_unused(users: Seq<UserRecord>, n: int) -> Option<int>
    decreases n,
{
    if n <= 0 {
        None
    } else {
        match first_unused(users, n - 1) {
            Some(i) => Some(i),
            None => if !users[n - 1].used {
                Some(n - 1)
            } else {
                None
            },
        }
    }
}

/// The first record in use with uid 0 among the first `n`.
pub open spec fn first_root(users: Seq<UserRecord>, n: int) -> Option<int>
    decreases n,
{
    if n <= 0 {
        None
    } else {
        match first_root(users, n - 1) {
            Some(i) => Some(i),
            None => if users[n - 1].used && users[n - 1].uid == 0 {
                Some(n - 1)
            } else {
                None
            },
        }
    }
}

/// The name bytes "root".
pub open spec fn root_name() -> Seq<u8> {
    seq![114u8, 111u8, 111u8, 116u8]
}

/// The credentials of a record.
pub open spec fn creds_of(r: UserRecord) -> Credentials {
    Credentials { uid: r.uid, gid: r.gid, is_admin: r.is_admin }
}

/// The 64-bit FNV-1a hash of a password.
pub fn hash_password(bytes: &[u8]) -> (r: u64)
    ensures
        r == fnv1a(bytes@),
{
    let mut hash: u64 = FNV_OFFSET;
    let mut i: usize = 0;
    while i < bytes.len()
        invariant
            i <= bytes@.len(),
            hash == fnv1a(bytes@.take(i as int)),
        decreases bytes@.len() - i,
    {
        proof {
            assert(bytes@.take(i + 1).drop_last() =~= bytes@.take(i as int));
        }
        hash = (hash ^ bytes[i] as u64).wrapping_mul(FNV_PRIME);
        i = i + 1;
    }
    assert(bytes@.take(i as int) =~= bytes@);
    hash
}

/// A name array holding the first 32 bytes of `bytes`, zero-padded.
pub fn to_array(bytes: &[u8]) -> (r: [u8; 32])
    ensures
        forall|k: int|
            0 <= k < 32 ==> #[trigger] r@[k] == if k < bytes@.len() {
                bytes@[k]
            } else {
                0u8
            },
{
    let mut arr = [0u8; 32];
    let len = if bytes.len() < MAX_NAME_LEN {
        bytes.len()
    } else {
        MAX_NAME_LEN
    };
    let mut i: usize = 0;
    while i < len
        invariant
            i <= len <= 32,
            len <= bytes@.len(),
            len == bytes@.len() || len == 32,
            forall|k: int|
                0 <= k < 32 ==> #[trigger] arr@[k] == if k < i {
                    bytes@[k]
                } else {
                    0u8
                },
        decreases len - i,
    {
        arr[i] = bytes[i];
        i = i + 1;
    }
    arr
}

/// The text of a stored name, or the empty string if it is not UTF-8.
fn name_text(name: &[u8; 32], len: usize) -> (r: &str)
    requires
        len <= 32,
    ensures
        valid_utf8(name@.take(len as int)) ==> r@ == decode_utf8(name@.take(len as int)),
        !valid_utf8(name@.take(len as int)) ==> r@ == Seq::<char>::empty(),
{
    let (bytes, _rest) = name.as_slice().split_at(len);
    match str_from_utf8(bytes) {
        Some(s) => s,
        None => {
            proof {
                reveal_strlit("");
            }
            ""
        },
    }
}

impl UserRecord {
    /// An unused slot.
    pub fn unused() -> (r: Self)
        ensures
            !r.used && r.username_len == 0 && r.password_hash == 0,
            r.uid == 0 && r.gid == 0 && !r.is_admin,
            forall|k: int| 0 <= k < 32 ==> r.username@[k] == 0,
    {
        Self {
            used: false,
            username: [0u8; 32],
            username_len: 0,
            password_hash: 0,
            uid: 0,
            gid: 0,
            is_admin: false,
        }
    }

    /// The record's name as text ("" if it is not UTF-8).
    pub fn username_str(&self) -> (r: &str)
        requires
            self.username_len <= 32,
        ensures
            valid_utf8(rec_name(*self)) ==> r@ == decode_utf8(rec_name(*self)),
            !valid_utf8(rec_name(*self)) ==> r@ == Seq::<char>::empty(),
    {
        name_text(&self.username, self.username_len)
    }
}

impl UserSummary {
    /// The user's name as text ("" if it is not UTF-8).
    pub fn username_str(&self) -> (r: &str)
        requires
            self.username_len <= 32,
        ensures
            valid_utf8(self.username@.take(self.username_len as int)) ==> r@ == decode_utf8(
                self.username@.take(self.username_len as int),
            ),
            !valid_utf8(self.username@.take(self.username_len as int)) ==> r@ == Seq::<
                char,
            >::empty(),
    {
        name_text(&self.username, self.username_len)
    }
}

/// The user table and the current user.
pub struct AuthState {
    users: Vec<UserRecord>,
    current: CurrentUser,
    next_uid: u32,
}

impl AuthState {
    pub closed spec fn users(&self) -> Seq<UserRecord> {
        self.users@
    }

    pub closed spec fn current(&self) -> CurrentUser {
        self.current
    }

    pub closed spec fn next_uid(&self) -> u32 {
        self.next_uid
    }

    /// Sixteen slots; every stored name length fits its array.
    pub closed spec fn wf(&self) -> bool {
        &&& self.users@.len() == MAX_USERS
        &&& forall|i: int| 0 <= i < MAX_USERS ==> (#[trigger] self.users@[i]).username_len <= 32
        &&& self.current.username_len <= 32
    }

    /// An empty table with no current user, before `init`.
    pub fn new() -> (r: Self)
        ensures
            r.wf(),
            forall|i: int| 0 <= i < MAX_USERS ==> !(#[trigger] r.users()[i]).used,
            r.current().username_len == 0,
            r.current().credentials == (Credentials { uid: 0, gid: 0, is_admin: false }),
            r.next_uid() == 1,
    {
        let mut users: Vec<UserRecord> = Vec::new();
        let mut i: usize = 0;
        while i < MAX_USERS
            invariant
                i <= MAX_USERS,
                users@.len() == i,
                forall|k: int| 0 <= k < i ==> !(#[trigger] users@[k]).used && users@[k].username_len == 0,
            decreases MAX_USERS - i,
        {
            users.push(UserRecord::unused());
            i = i + 1;
        }
        AuthState {
            users,
            current: CurrentUser {
                username: [0u8; 32],
                username_len: 0,
                credentials: Credentials { uid: 0, gid: 0, is_admin: false },
            },
            next_uid: 1,
        }
    }
}

/// The credentials of root: uid 0, gid 0, admin.
pub open spec fn root_creds() -> Credentials {
    Credentials { uid: 0, gid: 0, is_admin: true }
}

/// Every record in use has a uid below `next`.
pub open spec fn uids_below(users: Seq<UserRecord>, next: u32) -> bool {
    forall|i: int| 0 <= i < users.len() && (#[trigger] users[i]).used ==> users[i].uid < next
}

/// Reset the table to the single user root (password "root"), who
/// becomes the current user; uids are handed out from 1 again.
pub fn init(st: &mut AuthState)
    requires
        old(st).wf(),
    ensures
        final(st).wf(),
        final(st).users()[0].used,
        rec_name(final(st).users()[0]) == root_name(),
        final(st).users()[0].password_hash == fnv1a(root_name()),
        creds_of(final(st).users()[0]) == root_creds(),
        forall|i: int| 1 <= i < MAX_USERS ==> !(#[trigger] final(st).users()[i]).used,
        final(st).current().username@.take(4) == root_name(),
        final(st).current().username_len == 4,
        final(st).current().credentials == root_creds(),
        final(st).next_uid() == 1,
        uids_below(final(st).users(), final(st).next_uid()),
{
    let mut i: usize = 0;
    while i < MAX_USERS
        invariant
            i <= MAX_USERS,
            st.users@.len() == MAX_USERS,
            st.current.username_len <= 32,
            forall|k: int| 0 <= k < MAX_USERS ==> (#[trigger] st.users@[k]).username_len <= 32,
            forall|k: int| 0 <= k < i ==> !(#[trigger] st.users@[k]).used,
        decreases MAX_USERS - i,
    {
        st.users.set(i, UserRecord::unused());
        i = i + 1;
    }
    let root: [u8; 4] = [114u8, 111u8, 111u8, 116u8];
    assert(root@ =~= root_name());
    let root_hash = hash_password(root.as_slice());
    let name = to_array(root.as_slice());
    assert(name@.take(4) =~= root_name());
    st.users.set(
        0,
        UserRecord {
            used: true,
            username: name,
            username_len: 4,
            password_hash: root_hash,
            uid: 0,
            gid: 0,
            is_admin: true,
        },
    );
    st.current.username = name;
    st.current.username_len = 4;
    st.current.credentials = Credentials { uid: 0, gid: 0, is_admin: true };
    st.next_uid = 1;
}

/// The current user
pub fn current_user(st: &AuthState) -> (r: CurrentUser)
    ensures
        r == st.current(),
{
    st.current
}

/// Summaries of the users in use, in table order.
pub fn enumerate_users(st: &AuthState) -> (r: Vec<UserSummary>)
    requires
        st.wf(),
    ensures
        r@.len() == used_users(st.users()).len(),
        forall|k: int|
            0 <= k < r@.len() ==> {
                let u = used_users(st.users())[k];
                &&& (#[trigger] r@[k]).username == u.username
                &&& r@[k].username_len == u.username_len
                &&& r@[k].uid == u.uid && r@[k].gid == u.gid && r@[k].is_admin == u.is_admin
            },
{
    let mut out: Vec<UserSummary> = Vec::new();
    let mut i: usize = 0;
    while i < st.users.len()
        invariant
            i <= st.users@.len(),
            out@.len() == used_users(st.users@.take(i as int)).len(),
            forall|k: int|
                0 <= k < out@.len() ==> {
                    let u = used_users(st.users@.take(i as int))[k];
                    &&& (#[trigger] out@[k]).username == u.username
                    &&& out@[k].username_len == u.username_len
                    &&& out@[k].uid == u.uid && out@[k].gid == u.gid && out@[k].is_admin == u.is_admin
                },
        decreases st.users@.len() - i,
    {
        let rec = st.users[i];
        proof {
            let s = st.users@;
            assert(s.take(i + 1).drop_last() =~= s.take(i as int));
        }
        if rec.used {
            out.push(
                UserSummary {
                    username: rec.username,
                    username_len: rec.username_len,
                    uid: rec.uid,
                    gid: rec.gid,
                    is_admin: rec.is_admin,
                },
            );
        }
        i = i + 1;
    }
    assert(st.users@.take(i as int) =~= st.users@);
    out
}

/// A record's name equals `name`, byte for byte.
fn name_is(rec: &UserRecord, name: &[u8]) -> (r: bool)
    requires
        rec.username_len <= 32,
    ensures
        r == (rec_name(*rec) == name@),
{
    if rec.username_len != name.len() {
        assert(rec_name(*rec).len() != name@.len());
        return false;
    }
    let mut i: usize = 0;
    while i < name.len()
        invariant
            i <= name@.len() == rec.username_len <= 32,
            forall|k: int| 0 <= k < i ==> rec.username@[k] == name@[k],
        decreases name@.len() - i,
    {
        if rec.username[i] != name[i] {
            assert(rec_name(*rec)[i as int] != name@[i as int]);
            return false;
        }
        i = i + 1;
    }
    assert(rec_name(*rec) =~= name@);
    true
}

/// Log in: the first record in use with this name and password becomes
/// the current user.
///
/// Only the first `username_len` bytes of the current name are replaced;
/// the bytes after them keep what they held.
pub fn authenticate(st: &mut AuthState, username: &str, password: &str) -> (r: Result<Credentials, AuthError>)
    requires
        old(st).wf(),
    ensures
        final(st).wf(),
        final(st).users() == old(st).users(),
        final(st).next_uid() == old(st).next_uid(),
        encode_name(username).len() == 0 || encode_name(password).len() == 0 ==> r == Err::<Credentials, AuthError>(
            AuthError::InvalidInput,
        ) && final(st).current() == old(st).current(),
        encode_name(username).len() > 0 && encode_name(password).len() > 0 ==> {
            let users = old(st).users();
            match first_login(users, encode_name(username), fnv1a(encode_name(password)), MAX_USERS as int) {
                None => r == Err::<Credentials, AuthError>(AuthError::InvalidCredentials)
                    && final(st).current() == old(st).current(),
                Some(i) => {
                    let rec = users[i];
                    let c = final(st).current();
                    &&& r == Ok::<Credentials, AuthError>(creds_of(rec))
                    &&& c.credentials == creds_of(rec)
                    &&& c.username_len == rec.username_len
                    &&& forall|k: int|
                        0 <= k < 32 ==> #[trigger] c.username@[k] == if k < rec.username_len {
                            rec.username@[k]
                        } else {
                            old(st).current().username@[k]
                        }
                },
            }
        },
{
    let name = username.as_bytes();
    let pw = password.as_bytes();
    if name.len() == 0 || pw.len() == 0 {
        return Err(AuthError::InvalidInput);
    }
    let hash = hash_password(pw);
    let mut i: usize = 0;
    while i < MAX_USERS
        invariant
            i <= MAX_USERS,
            st.wf(),
            st.users@ == old(st).users@,
            st.current == old(st).current,
            st.next_uid == old(st).next_uid,
            name@ == encode_name(username),
            pw@ == encode_name(password),
            name@.len() > 0 && pw@.len() > 0,
            hash == fnv1a(encode_name(password)),
            first_login(st.users@, name@, hash, i as int) is None,
        decreases MAX_USERS - i,
    {
        let rec = st.users[i];
        if rec.used && name_is(&rec, name) && rec.password_hash == hash {
            proof {
                lemma_login_stable(st.users@, name@, hash, i + 1, MAX_USERS as int);
            }
            let creds = Credentials { uid: rec.uid, gid: rec.gid, is_admin: rec.is_admin };
            let mut k: usize = 0;
            while k < rec.username_len
                invariant
                    k <= rec.username_len <= 32,
                    st.wf(),
                    st.users@ == old(st).users@,
                    st.next_uid == old(st).next_uid,
                    st.current.username_len == old(st).current.username_len,
                    st.current.credentials == old(st).current.credentials,
                    forall|j: int|
                        0 <= j < 32 ==> #[trigger] st.current.username@[j] == if j < k {
                            rec.username@[j]
                        } else {
                            old(st).current.username@[j]
                        },
                decreases rec.username_len - k,
            {
                st.current.username[k] = rec.username[k];
                k = k + 1;
            }
            st.current.username_len = rec.username_len;
            st.current.credentials = creds;
            return Ok(creds);
        }
        i = i + 1;
    }
    Err(AuthError::InvalidCredentials)
}

/// The UTF-8 bytes of a string.
pub open spec fn encode_name(s: &str) -> Seq<u8> {
    vstd::utf8::encode_utf8(s@)
}

proof fn lemma_login_stable(u: Seq<UserRecord>, name: Seq<u8>, hash: u64, n: int, m: int)
    requires
        n <= m,
        first_login(u, name, hash, n) is Some,
    ensures
        first_login(u, name, hash, m) == first_login(u, name, hash, n),
    decreases m - n,
{
    if n < m {
        lemma_login_stable(u, name, hash, n, m - 1);
    }
}


/// `r` is the record `create_user` makes for this name, password hash,
/// uid and admin flag.
pub open spec fn new_record(r: UserRecord, name: Seq<u8>, hash: u64, uid: u32, is_admin: bool) -> bool {
    &&& r.used
    &&& r.username_len == name.len()
    &&& forall|k: int| 0 <= k < 32 ==> #[trigger] r.username@[k] == if k < name.len() {
        name[k]
    } else {
        0u8
    }
    &&& r.password_hash == hash
    &&& r.uid == uid && r.gid == uid
    &&& r.is_admin == is_admin
}

/// What `create_user` does to a table `o`, giving `n` and `r`.
pub open spec fn create_post(
    o: Seq<UserRecord>,
    on: u32,
    n: Seq<UserRecord>,
    nn: u32,
    name: Seq<u8>,
    pw: Seq<u8>,
    is_admin: bool,
    r: Result<u32, AuthError>,
) -> bool {
    if name.len() == 0 || pw.len() == 0 || name.len() > MAX_NAME_LEN || pw.len() > MAX_PASSWORD_LEN {
        r == Err::<u32, AuthError>(AuthError::InvalidInput) && n == o && nn == on
    } else if name_taken(o, name) {
        r == Err::<u32, AuthError>(AuthError::AlreadyExists) && n == o && nn == on
    } else {
        match first_unused(o, MAX_USERS as int) {
            None => r == Err::<u32, AuthError>(AuthError::TableFull) && n == o && nn == on,
            Some(i) => {
                &&& r == Ok::<u32, AuthError>(on)
                &&& nn == on.wrapping_add(1)
                &&& n.len() == o.len()
                &&& new_record(n[i], name, fnv1a(pw), on, is_admin)
                &&& forall|j: int| 0 <= j < o.len() && j != i ==> #[trigger] n[j] == o[j]
            },
        }
    }
}

proof fn lemma_unused_stable(u: Seq<UserRecord>, n: int, m: int)
    requires
        n <= m,
        first_unused(u, n) is Some,
    ensures
        first_unused(u, m) == first_unused(u, n),
    decreases m - n,
{
    if n < m {
        lemma_unused_stable(u, n, m - 1);
    }
}

/// Create a user with the next uid (also its gid)
///
/// The name must be 1 to 32 bytes and not in use; the password 1 to 64
/// bytes.  The first free slot takes the user.
pub fn create_user(st: &mut AuthState, username: &str, password: &str, is_admin: bool) -> (r: Result<u32, AuthError>)
    requires
        old(st).wf(),
    ensures
        final(st).wf(),
        final(st).current() == old(st).current(),
        create_post(
            old(st).users(),
            old(st).next_uid(),
            final(st).users(),
            final(st).next_uid(),
            encode_name(username),
            encode_name(password),
            is_admin,
            r,
        ),
{
    let name = username.as_bytes();
    let pw = password.as_bytes();
    if name.len() == 0 || pw.len() == 0 {
        return Err(AuthError::InvalidInput);
    }
    if name.len() > MAX_NAME_LEN || pw.len() > MAX_PASSWORD_LEN {
        return Err(AuthError::InvalidInput);
    }
    let mut i: usize = 0;
    while i < MAX_USERS
        invariant
            i <= MAX_USERS,
            st.wf(),
            st.users@ == old(st).users@,
            st.next_uid == old(st).next_uid,
            st.current == old(st).current,
            name@ == encode_name(username),
            pw@ == encode_name(password),
            0 < name@.len() <= MAX_NAME_LEN,
            0 < pw@.len() <= MAX_PASSWORD_LEN,
            forall|k: int|
                0 <= k < i ==> !((#[trigger] st.users@[k]).used && rec_name(st.users@[k]) == name@),
        decreases MAX_USERS - i,
    {
        let rec = st.users[i];
        if rec.used && name_is(&rec, name) {
            assert(st.users@[i as int].used && rec_name(st.users@[i as int]) == name@);
            return Err(AuthError::AlreadyExists);
        }
        i = i + 1;
    }
    let mut slot: usize = 0;
    while slot < MAX_USERS && st.users[slot].used
        invariant
            slot <= MAX_USERS,
            st.wf(),
            first_unused(st.users@, slot as int) is None,
        decreases MAX_USERS - slot,
    {
        slot = slot + 1;
    }
    if slot >= MAX_USERS {
        return Err(AuthError::TableFull);
    }
    proof {
        lemma_unused_stable(st.users@, slot + 1, MAX_USERS as int);
    }
    let uid = st.next_uid;
    st.next_uid = st.next_uid.wrapping_add(1);
    let rec = UserRecord {
        used: true,
        username: to_array(name),
        username_len: name.len(),
        password_hash: hash_password(pw),
        uid,
        gid: uid,
        is_admin,
    };
    st.users.set(slot, rec);
    Ok(uid)
}

/// A user made by `create_user` can log in with its name and password:
/// its record is the first that matches them.
pub proof fn lemma_created_user_logs_in(
    o: Seq<UserRecord>,
    on: u32,
    n: Seq<UserRecord>,
    nn: u32,
    name: Seq<u8>,
    pw: Seq<u8>,
    is_admin: bool,
    uid: u32,
)
    requires
        o.len() == MAX_USERS,
        forall|i: int| 0 <= i < MAX_USERS ==> (#[trigger] o[i]).username_len <= 32,
        create_post(o, on, n, nn, name, pw, is_admin, Ok(uid)),
    ensures
        first_login(n, name, fnv1a(pw), MAX_USERS as int) matches Some(i) && creds_of(n[i])
            == (Credentials { uid, gid: uid, is_admin }),
{
    let slot = first_unused(o, MAX_USERS as int).unwrap();
    lemma_unused_range(o, MAX_USERS as int);
    assert(rec_name(n[slot]) =~= name);
    lemma_login_finds(n, name, fnv1a(pw), MAX_USERS as int, slot);
}

/// Law: uids are fresh.  When every user's uid is below the next uid (as
/// after `init`) and uids have not run out, a user `create_user` makes
/// gets a uid that no existing user has, with gid equal to it, and every
/// uid stays below the next one.
pub proof fn law_created_uid_fresh(
    o: Seq<UserRecord>,
    on: u32,
    n: Seq<UserRecord>,
    nn: u32,
    name: Seq<u8>,
    pw: Seq<u8>,
    is_admin: bool,
    r: Result<u32, AuthError>,
)
    requires
        o.len() == MAX_USERS,
        uids_below(o, on),
        on < u32::MAX,
        create_post(o, on, n, nn, name, pw, is_admin, r),
    ensures
        uids_below(n, nn),
        r matches Ok(uid) ==> {
            &&& forall|j: int| 0 <= j < o.len() && (#[trigger] o[j]).used ==> o[j].uid != uid
            &&& exists|i: int| 0 <= i < n.len() && #[trigger] n[i].used && n[i].uid == uid && n[i].gid == uid
                && n[i].is_admin == is_admin && !o[i].used
        },
{
    if r is Ok {
        let slot = first_unused(o, MAX_USERS as int).unwrap();
        lemma_unused_range(o, MAX_USERS as int);
        assert(n[slot].used);
        assert forall|i: int| 0 <= i < n.len() && (#[trigger] n[i]).used implies n[i].uid < nn by {
            if i != slot {
                assert(n[i] == o[i]);
            }
        }
    }
}

proof fn lemma_unused_range(u: Seq<UserRecord>, n: int)
    ensures
        first_unused(u, n) matches Some(i) ==> 0 <= i < n && !u[i].used,
    decreases n,
{
    if n > 0 {
        lemma_unused_range(u, n - 1);
    }
}

/// If the only record in use with a name is `slot`, and its hash matches,
/// the login finds it.
proof fn lemma_login_finds(u: Seq<UserRecord>, name: Seq<u8>, hash: u64, n: int, slot: int)
    requires
        0 <= slot < n <= u.len(),
        u[slot].used && rec_name(u[slot]) == name && u[slot].password_hash == hash,
        forall|j: int| 0 <= j < u.len() && j != slot ==> !(#[trigger] u[j].used && rec_name(u[j]) == name),
    ensures
        first_login(u, name, hash, n) == Some(slot),
    decreases n,
{
    if n - 1 > slot {
        lemma_login_finds(u, name, hash, n - 1, slot);
    } else {
        lemma_login_none(u, name, hash, slot);
    }
}

proof fn lemma_login_none(u: Seq<UserRecord>, name: Seq<u8>, hash: u64, n: int)
    requires
        0 <= n <= u.len(),
        forall|j: int| 0 <= j < n ==> !(#[trigger] u[j].used && rec_name(u[j]) == name),
    ensures
        first_login(u, name, hash, n) is None,
    decreases n,
{
    if n > 0 {
        lemma_login_none(u, name, hash, n - 1);
    }
}

/// The current user is an administrator.
pub fn require_admin(st: &AuthState) -> (r: bool)
    ensures
        r == st.current().credentials.is_admin,
{
    st.current.credentials.is_admin
}

/// Check if current user is superuser (UID 0 or admin flag)
pub fn is_superuser(st: &AuthState) -> (r: bool)
    ensures
        r == (st.current().credentials.uid == 0 || st.current().credentials.is_admin),
{
    st.current.credentials.uid == 0 || st.current.credentials.is_admin
}

/// Get current user's UID
pub fn current_uid(st: &AuthState) -> (r: u32)
    ensures
        r == st.current().credentials.uid,
{
    st.current.credentials.uid
}

/// Get current user's GID
pub fn current_gid(st: &AuthState) -> (r: u32)
    ensures
        r == st.current().credentials.gid,
{
    st.current.credentials.gid
}

/// Log out: the first user in use with uid 0 becomes the current user.
pub fn logout(st: &mut AuthState) -> (r: Result<(), AuthError>)
    requires
        old(st).wf(),
    ensures
        final(st).wf(),
        final(st).users() == old(st).users(),
        final(st).next_uid() == old(st).next_uid(),
        match first_root(old(st).users(), MAX_USERS as int) {
            None => r == Err::<(), AuthError>(AuthError::InvalidInput) && final(st).current()
                == old(st).current(),
            Some(i) => {
                let root = old(st).users()[i];
                let c = final(st).current();
                &&& r is Ok
                &&& c.credentials == creds_of(root)
                &&& c.username_len == root.username_len
                &&& forall|k: int|
                    0 <= k < 32 ==> #[trigger] c.username@[k] == if k < root.username_len {
                        root.username@[k]
                    } else {
                        0u8
                    }
            },
        },
{
    let mut i: usize = 0;
    while i < MAX_USERS && !(st.users[i].used && st.users[i].uid == 0)
        invariant
            i <= MAX_USERS,
            st.wf(),
            first_root(st.users@, i as int) is None,
        decreases MAX_USERS - i,
    {
        i = i + 1;
    }
    if i >= MAX_USERS {
        return Err(AuthError::InvalidInput);
    }
    proof {
        lemma_root_stable(st.users@, i + 1, MAX_USERS as int);
    }
    let root = st.users[i];
    let mut name = [0u8; 32];
    let mut k: usize = 0;
    while k < root.username_len
        invariant
            k <= root.username_len <= 32,
            forall|j: int|
                0 <= j < 32 ==> #[trigger] name@[j] == if j < k {
                    root.username@[j]
                } else {
                    0u8
                },
        decreases root.username_len - k,
    {
        name[k] = root.username[k];
        k = k + 1;
    }
    st.current = CurrentUser {
        username: name,
        username_len: root.username_len,
        credentials: Credentials { uid: root.uid, gid: root.gid, is_admin: root.is_admin },
    };
    Ok(())
}

proof fn lemma_root_stable(u: Seq<UserRecord>, n: int, m: int)
    requires
        n <= m,
        first_root(u, n) is Some,
    ensures
        first_root(u, m) == first_root(u, n),
    decreases m - n,
{
    if n < m {
        lemma_root_stable(u, n, m - 1);
    }
}

} // verus!
