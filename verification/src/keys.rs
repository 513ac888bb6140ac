//! Credentials: who a key stands for, and how a host asks to be let in.

use vstd::prelude::*;
use vstd::string::StringExecFns;
use crate::names::{key_ok, key_ok_spec, name_ok, name_ok_spec};
use crate::store::{Auth, AuthView, FilePath, FilePathView, KeyFile, KeyFileView, StoreError, StoreErrorView};
use crate::text::texts;
use crate::time::Timestamp;

verus! {

/// What a list of credentials holds.
pub open spec fn keyfiles_view(v: Seq<KeyFile>) -> Seq<KeyFileView> {
    Seq::new(v.len(), |i: int| v[i]@)
}

/// The identity that a credential stands for.
pub open spec fn auth_of(f: KeyFileView) -> AuthView {
    AuthView { host: f.host, global_view: f.global_view }
}

/// Who `key` stands for among the first `n` of `files`: nobody if none of
/// them holds it, the host of the one that does, and a failure that names
/// the two hosts if a second one holds it too.
pub open spec fn check_key_spec(files: Seq<KeyFileView>, n: int, key: Seq<char>) -> Result<
    Option<AuthView>,
    StoreErrorView,
>
    decreases n,
{
    if n <= 0 {
        Ok(None)
    } else {
        match check_key_spec(files, n - 1, key) {
            Err(e) => Err(e),
            Ok(found) => if files[n - 1].key == key {
                match found {
                    Some(earlier) => Err(
                        StoreErrorView::DuplicateKeys {
                            first: files[n - 1].host,
                            second: earlier.host,
                        },
                    ),
                    None => Ok(Some(auth_of(files[n - 1]))),
                }
            } else {
                Ok(found)
            },
        }
    }
}

/// Where a credential is kept: in the directory `set` below the data
/// directory, in a file named after the host. Without a host, the directory
/// alone.
pub open spec fn keypath_spec(root: Seq<char>, set: Seq<char>, host: Option<Seq<char>>) -> Result<
    FilePathView,
    StoreErrorView,
> {
    match host {
        Some(h) => if name_ok_spec(h) {
            Ok(FilePathView { dir: seq![root, set], file: h + ".json"@ })
        } else {
            Err(StoreErrorView::InvalidName)
        },
        None => Ok(FilePathView { dir: seq![root, set], file: Seq::empty() }),
    }
}

/// What is to be done about a request to enrol.
#[derive(Debug)]
pub enum Enrol {
    /// The request is turned down: the name or the key will not do.
    Rejected,
    /// The host is known already. The request is answered as if it had been
    /// taken, and nothing is written.
    Accepted,
    /// The credential is to be created in the file named, and never written
    /// over one that is there.
    Create { pending: FilePath, record: KeyFile },
}

/// What an `Enrol` holds.
pub enum EnrolView {
    Rejected,
    Accepted,
    Create { pending: FilePathView, record: KeyFileView },
}

impl View for Enrol {
    type V = EnrolView;

    open spec fn view(&self) -> EnrolView {
        match self {
            Enrol::Rejected => EnrolView::Rejected,
            Enrol::Accepted => EnrolView::Accepted,
            Enrol::Create { pending, record } => EnrolView::Create {
                pending: pending@,
                record: record@,
            },
        }
    }
}

/// The credential that a host proposes: never one that may see all hosts.
pub open spec fn proposed(host: Seq<char>, key: Seq<char>, now: Timestamp) -> KeyFileView {
    KeyFileView { host: host, key: key, time_create: now, global_view: false }
}

/// What is to be done about a request to enrol `host` with `key`, given
/// whether the host has a confirmed credential.
pub open spec fn enrol_spec(
    root: Seq<char>,
    host: Seq<char>,
    key: Seq<char>,
    confirmed: bool,
    now: Timestamp,
) -> EnrolView {
    if !name_ok_spec(host) || !key_ok_spec(key) {
        EnrolView::Rejected
    } else if confirmed {
        EnrolView::Accepted
    } else {
        EnrolView::Create {
            pending: FilePathView { dir: seq![root, "enrol"@], file: host + ".json"@ },
            record: proposed(host, key, now),
        }
    }
}

/// How the attempt to create a credential file ended.
#[derive(Debug)]
pub enum Created {
    /// The file was created and the credential written.
    Written,
    /// A file was there already; it was left alone.
    AlreadyExists,
    /// Creating or writing failed; the text describes why.
    Failed(String),
}

/// The credentials below a data directory.
#[derive(Debug)]
pub struct KeyStore {
    dir: String,
}

impl KeyStore {
    /// The data directory.
    pub closed spec fn root(&self) -> Seq<char> {
        self.dir@
    }

    /// The store of the credentials below the data directory `dir`.
    pub fn new(dir: &str) -> (r: Result<KeyStore, StoreError>)
        ensures
            r is Ok,
            r->Ok_0.root() == dir@,
    {
        Ok(KeyStore { dir: dir.to_owned() })
    }

    /// Where the credential of `host` is kept in the set `set`, or where the
    /// whole set is kept.
    pub fn keypath(&self, set: &str, host: Option<&str>) -> (r: Result<FilePath, StoreError>)
        ensures
            match keypath_spec(
                self.root(),
                set@,
                match host {
                    Some(h) => Some(h@),
                    None => None,
                },
            ) {
                Ok(p) => r is Ok && r->Ok_0@ == p,
                Err(e) => r is Err && r->Err_0@ == e,
            },
    {
        let mut dir: Vec<String> = Vec::new();
        dir.push(self.dir.clone());
        dir.push(set.to_owned());
        assert(texts(dir@) =~= seq![self.root(), set@]);
        match host {
            Some(h) => {
                if !name_ok(h) {
                    return Err(StoreError::InvalidName);
                }
                let mut file = h.to_owned();
                file.append(".json");
                Ok(FilePath { dir, file })
            },
            None => Ok(FilePath { dir, file: String::new() }),
        }
    }

    /// Finds out who `key` stands for among the confirmed credentials, in
    /// the order in which they were read. The key must match in full. Two
    /// credentials with the same key are a failure, not a choice.
    pub fn check_key(&self, files: &Vec<KeyFile>, key: &str) -> (r: Result<Option<Auth>, StoreError>)
        ensures
            match check_key_spec(keyfiles_view(files@), files.len() as int, key@) {
                Ok(Some(a)) => r is Ok && r->Ok_0 is Some && r->Ok_0->0@ == a,
                Ok(None) => r is Ok && r->Ok_0 is None,
                Err(e) => r is Err && r->Err_0@ == e,
            },
    {
        let ghost all = keyfiles_view(files@);
        let mut out: Option<Auth> = None;
        let mut i: usize = 0;
        while i < files.len()
            invariant
                i <= files.len(),
                all == keyfiles_view(files@),
                match check_key_spec(all, i as int, key@) {
                    Ok(Some(a)) => out is Some && out->0@ == a,
                    Ok(None) => out is None,
                    Err(_) => false,
                },
            decreases files.len() - i,
        {
            let f = &files[i];
            assert(all[i as int] == f@);
            if crate::text::str_eq(key, f.key.as_str()) {
                match out {
                    Some(earlier) => {
                        proof {
                            lemma_check_key_fails(all, i + 1, files.len() as int, key@);
                        }
                        return Err(
                            StoreError::DuplicateKeys { first: f.host.clone(), second: earlier.host },
                        );
                    },
                    None => {
                        out = Some(Auth { host: f.host.clone(), global_view: f.global_view });
                    },
                }
            }
            i += 1;
        }
        Ok(out)
    }

    /// Settles a request to enrol `host` with `key`, given whether the host
    /// has a confirmed credential already. A host that has one is told that
    /// all is well, and nothing is made.
    pub fn enrol_key(&self, host: &str, key: &str, confirmed: bool, now: Timestamp) -> (r: Enrol)
        ensures
            r@ == enrol_spec(self.root(), host@, key@, confirmed, now),
    {
        if !name_ok(host) || !key_ok(key) {
            return Enrol::Rejected;
        }
        if confirmed {
            return Enrol::Accepted;
        }
        match self.keypath("enrol", Some(host)) {
            Ok(pending) => Enrol::Create {
                pending,
                record: KeyFile {
                    host: host.to_owned(),
                    key: key.to_owned(),
                    time_create: now,
                    global_view: false,
                },
            },
            Err(_) => Enrol::Rejected,
        }
    }
}

/// Once two credentials hold the key, reading more of them changes
/// nothing.
proof fn lemma_check_key_fails(files: Seq<KeyFileView>, n: int, m: int, key: Seq<char>)
    requires
        0 <= n <= m,
        check_key_spec(files, n, key) is Err,
    ensures
        check_key_spec(files, m, key) == check_key_spec(files, n, key),
    decreases m - n,
{
    if n < m {
        lemma_check_key_fails(files, n, m - 1, key);
    }
}

/// What the client is told once the attempt to create its credential has
/// ended: that all is well also where a file was there already, which may
/// be the same host asking again and is not given away.
pub fn enrol_created(outcome: Created) -> (r: Result<bool, StoreError>)
    ensures
        match outcome {
            Created::Written => r is Ok && r->Ok_0,
            Created::AlreadyExists => r is Ok && r->Ok_0,
            Created::Failed(e) => r is Err && r->Err_0@ == StoreErrorView::Failed(
                "enrol key failure: "@ + e@,
            ),
        },
{
    match outcome {
        Created::Written => Ok(true),
        Created::AlreadyExists => Ok(true),
        Created::Failed(e) => {
            let mut text = String::from_str("enrol key failure: ");
            text.append(e.as_str());
            Err(StoreError::Failed(text))
        },
    }
}

/// What the client is told about a request that needed nothing created.
pub fn enrol_settled(step: &Enrol) -> (r: Option<bool>)
    ensures
        r == match step@ {
            EnrolView::Rejected => Some(false),
            EnrolView::Accepted => Some(true),
            EnrolView::Create { .. } => None::<bool>,
        },
{
    match step {
        Enrol::Rejected => Some(false),
        Enrol::Accepted => Some(true),
        Enrol::Create { .. } => None,
    }
}

} // verus!

verus! {

/// The credentials that are kept: the hosts that are let in, and what the
/// hosts that wait to be let in have proposed.
pub struct Registry {
    pub confirmed: Set<Seq<char>>,
    pub pending: Map<Seq<char>, KeyFileView>,
}

/// The registry after a request to enrol, and what the client is told. A
/// proposal is never written over one that is there.
pub open spec fn registry_enrol(
    reg: Registry,
    root: Seq<char>,
    host: Seq<char>,
    key: Seq<char>,
    now: Timestamp,
) -> (Registry, bool) {
    match enrol_spec(root, host, key, reg.confirmed.contains(host), now) {
        EnrolView::Rejected => (reg, false),
        EnrolView::Accepted => (reg, true),
        EnrolView::Create { pending, record } => if reg.pending.dom().contains(host) {
            (reg, true)
        } else {
            (Registry { pending: reg.pending.insert(host, record), ..reg }, true)
        },
    }
}

/// Enrolling a host twice with the same key is accepted both times, and the
/// second time makes nothing: the registry stays as the first request left
/// it.
pub proof fn lemma_enrol_twice(
    reg: Registry,
    root: Seq<char>,
    host: Seq<char>,
    key: Seq<char>,
    now: Timestamp,
    later: Timestamp,
)
    requires
        name_ok_spec(host),
        key_ok_spec(key),
    ensures
        ({
            let first = registry_enrol(reg, root, host, key, now);
            let second = registry_enrol(first.0, root, host, key, later);
            &&& first.1
            &&& second.1
            &&& second.0 == first.0
        }),
{
}

/// A key of any length but 64, or a name that breaks the naming rules, is
/// turned down and leaves the registry as it was.
pub proof fn lemma_enrol_rejects(
    reg: Registry,
    root: Seq<char>,
    host: Seq<char>,
    key: Seq<char>,
    now: Timestamp,
)
    requires
        key.len() != 64 || !name_ok_spec(host) || !key_ok_spec(key),
    ensures
        registry_enrol(reg, root, host, key, now) == (reg, false),
{
}

/// Enrolling never touches the hosts that are let in, and never changes a
/// proposal that is there.
pub proof fn lemma_enrol_keeps(
    reg: Registry,
    root: Seq<char>,
    host: Seq<char>,
    key: Seq<char>,
    now: Timestamp,
    other: Seq<char>,
)
    requires
        reg.pending.dom().contains(other),
    ensures
        registry_enrol(reg, root, host, key, now).0.confirmed == reg.confirmed,
        registry_enrol(reg, root, host, key, now).0.pending.dom().contains(other),
        registry_enrol(reg, root, host, key, now).0.pending[other] == reg.pending[other],
{
}

} // verus!
