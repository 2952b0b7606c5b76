//! The adapter facade: builder, error taxonomy, capability descriptor,
//! and the decisions each operation makes around its transaction.
//!
//! The asynchronous transaction itself runs outside the library. What
//! stands here is everything the adapter decides: how the configuration
//! resolves to names, what the descriptor declares, how a read result is
//! translated, how the engine's key list becomes a scanner, and how a
//! native failure is wrapped for the caller.

use vstd::prelude::*;
use vstd::string::*;
use crate::config::IndexeddbConfig;
use crate::connection::ConnectionCell;
use crate::order::lex_leq;
use crate::order::lex_lt;
use crate::scanner::IndexeddbScanner;
use crate::store::KeyValueRecord;
use crate::store::RecordSpace;

verus! {

/// The adapter's single error kind: every native failure — connection,
/// schema declaration, transaction, serialization — is reported under
/// it, with no finer taxonomy.
#[derive(Clone, Copy, Debug, PartialEq, Eq, Structural)]
pub enum AdapterErrorKind {
    Unexpected,
}

/// The caller-facing error: the coarse kind with the native failure's
/// message carried as context. No local recovery is attempted anywhere;
/// the wrapped failure is returned immediately.
#[derive(Debug, Clone)]
pub struct AdapterError {
    pub kind: AdapterErrorKind,
    pub message: String,
}

impl AdapterError {
    /// Wraps a native failure message into the single "unexpected" kind.
    pub fn unexpected(message: String) -> (e: AdapterError)
        ensures
            e.kind is Unexpected,
            e.message@ == message@,
    {
        AdapterError { kind: AdapterErrorKind::Unexpected, message }
    }

    /// The human-readable context carried from the native failure.
    pub fn message(&self) -> (m: &str)
        ensures
            m@ == self.message@,
    {
        self.message.as_str()
    }
}

/// Carries the configuration toward a built backend.
#[derive(Debug)]
pub struct IndexeddbBuilder {
    config: IndexeddbConfig,
}

impl IndexeddbBuilder {
    /// The configuration the builder was made from.
    pub closed spec fn cfg(&self) -> IndexeddbConfig {
        self.config
    }
}

impl Default for IndexeddbBuilder {
    /// A builder over the all-default configuration.
    fn default() -> (b: Self)
        ensures
            b.cfg().db_name is None,
            b.cfg().object_store_name is None,
            b.cfg().root is None,
    {
        IndexeddbBuilder {
            config: IndexeddbConfig { db_name: None, object_store_name: None, root: None },
        }
    }
}

impl IndexeddbConfig {
    /// Consumes the configuration into its builder.
    pub fn into_builder(self) -> (b: IndexeddbBuilder)
        ensures
            b.cfg() == self,
    {
        IndexeddbBuilder { config: self }
    }
}

/// The scheme name under which the backend presents itself.
pub fn scheme() -> (s: &'static str)
    ensures
        s@ == "indexeddb"@,
{
    "indexeddb"
}

/// The primary-key path declared for the record space: each stored
/// record echoes its key under this attribute.
pub fn record_key_path() -> (s: &'static str)
    ensures
        s@ == "k"@,
{
    "k"
}

/// A configured name, or its documented default where none was given.
pub open spec fn name_or(opt: Option<String>, def: Seq<char>) -> Seq<char> {
    match opt {
        Some(s) => s@,
        None => def,
    }
}

/// The adapter core, fixed at construction: one logical connection to
/// one named database and record space, guarded by the once-only
/// connection cell. Each operation acquires the connection first and
/// then runs its own single transaction.
#[derive(Debug)]
pub struct Adapter {
    pub db_name: String,
    pub object_store_name: String,
    pub cell: ConnectionCell,
}

/// The built backend: the adapter plus the root under which every path
/// is resolved.
#[derive(Debug)]
pub struct IndexeddbBackend {
    pub adapter: Adapter,
    pub root: String,
}

impl IndexeddbBuilder {
    /// Resolves the configuration: absent names fall back to their
    /// documented defaults, and the connection starts unestablished.
    pub fn build(self) -> (b: IndexeddbBackend)
        ensures
            b.adapter.db_name@ == name_or(self.cfg().db_name, "opendal"@),
            b.adapter.object_store_name@ == name_or(self.cfg().object_store_name, "main"@),
            b.root@ == name_or(self.cfg().root, "/"@),
            b.adapter.cell.state() is Uninitialized,
    {
        let db_name = match self.config.db_name {
            Some(s) => s,
            None => "opendal".to_owned(),
        };
        let object_store_name = match self.config.object_store_name {
            Some(s) => s,
            None => "main".to_owned(),
        };
        let root = match self.config.root {
            Some(s) => s,
            None => "/".to_owned(),
        };
        IndexeddbBackend {
            adapter: Adapter { db_name, object_store_name, cell: ConnectionCell::new() },
            root,
        }
    }
}

/// Which operations the backend supports, and whether independent
/// instances may be assumed to share state safely.
#[derive(Clone, Copy, Debug, PartialEq, Eq, Structural)]
pub struct Capability {
    pub read: bool,
    pub write: bool,
    pub delete: bool,
    pub list: bool,
    pub shared: bool,
}

/// The static capability/info descriptor of one adapter instance.
#[derive(Debug)]
pub struct AdapterInfo {
    pub scheme: String,
    pub name: String,
    pub capability: Capability,
}

impl Adapter {
    /// The descriptor: reads, writes, deletes and listing are supported;
    /// the instance is not safely shareable with independent instances.
    /// Its name joins the database and record-space names.
    pub fn info(&self) -> (r: AdapterInfo)
        ensures
            r.scheme@ == "indexeddb"@,
            r.name@ == self.db_name@ + "-"@ + self.object_store_name@,
            r.capability == (Capability {
                read: true,
                write: true,
                delete: true,
                list: true,
                shared: false,
            }),
    {
        let mut name = self.db_name.clone();
        name.append("-");
        name.append(self.object_store_name.as_str());
        AdapterInfo {
            scheme: scheme().to_owned(),
            name,
            capability: Capability { read: true, write: true, delete: true, list: true, shared: false },
        }
    }
}

/// The two modes a transaction can be opened in.
#[derive(Clone, Copy, Debug, PartialEq, Eq, Structural)]
pub enum TransactionMode {
    ReadOnly,
    ReadWrite,
}

/// The four operations of the facade.
#[derive(Clone, Copy, Debug, PartialEq, Eq, Structural)]
pub enum Operation {
    Get,
    Put,
    Delete,
    Scan,
}

/// The mode the executor opens each operation's transaction in, scoped
/// to the one named record space: reads and scans never take a write
/// lock; writes and deletes do.
pub fn transaction_mode(op: Operation) -> (m: TransactionMode)
    ensures
        (m is ReadWrite) == (op is Put || op is Delete),
{
    match op {
        Operation::Get => TransactionMode::ReadOnly,
        Operation::Scan => TransactionMode::ReadOnly,
        Operation::Put => TransactionMode::ReadWrite,
        Operation::Delete => TransactionMode::ReadWrite,
    }
}

/// What `get` returns from what its transaction read. No record means
/// the key is absent: a successful `None`, never a failure. A record
/// that could not be decoded surfaces as the adapter's error. A decoded
/// record yields its raw payload.
pub fn value_of_decoded(found: Option<Result<KeyValueRecord, AdapterError>>) -> (r: Result<
    Option<Vec<u8>>,
    AdapterError,
>)
    ensures
        match found {
            None => r is Ok && r->Ok_0 is None,
            Some(d) => match d {
                Ok(rec) => r is Ok && r->Ok_0 is Some && r->Ok_0->Some_0@ == rec.v@,
                Err(e) => r is Err && r->Err_0 == e,
            },
        },
{
    match found {
        None => Ok(None),
        Some(Ok(rec)) => Ok(Some(rec.v)),
        Some(Err(e)) => Err(e),
    }
}

/// Keeps, in order, the keys the engine handed back that are strings,
/// dropping every other kind of key.
pub open spec fn present_keys(s: Seq<Option<String>>) -> Seq<Seq<char>>
    decreases s.len(),
{
    if s.len() == 0 {
        Seq::empty()
    } else {
        match s[0] {
            Some(k) => seq![k@] + present_keys(s.skip(1)),
            None => present_keys(s.skip(1)),
        }
    }
}

/// Appending one raw key extends the kept keys by it exactly when it is
/// a string.
proof fn lemma_present_keys_push(s: Seq<Option<String>>, x: Option<String>)
    ensures
        present_keys(s.push(x)) == present_keys(s) + (match x {
            Some(k) => seq![k@],
            None => Seq::<Seq<char>>::empty(),
        }),
    decreases s.len(),
{
    let sp = s.push(x);
    if s.len() == 0 {
        assert(sp[0] == x);
        assert(sp.skip(1) =~= Seq::<Option<String>>::empty());
        assert(present_keys(Seq::<Option<String>>::empty()) == Seq::<Seq<char>>::empty());
        match x {
            Some(k) => {
                assert(present_keys(sp) == seq![k@] + Seq::<Seq<char>>::empty());
                assert(seq![k@] + Seq::<Seq<char>>::empty() =~= seq![k@]);
                assert(present_keys(s) + seq![k@] =~= seq![k@]);
            },
            None => {
                assert(present_keys(sp) == Seq::<Seq<char>>::empty());
                assert(present_keys(s) + Seq::<Seq<char>>::empty() =~= Seq::<Seq<char>>::empty());
            },
        }
    } else {
        assert(sp[0] == s[0]);
        assert(sp.skip(1) =~= s.skip(1).push(x));
        lemma_present_keys_push(s.skip(1), x);
        match s[0] {
            Some(k) => {
                assert(present_keys(sp) == seq![k@] + present_keys(s.skip(1).push(x)));
                assert(seq![k@] + (present_keys(s.skip(1)) + (match x {
                    Some(k2) => seq![k2@],
                    None => Seq::<Seq<char>>::empty(),
                })) =~= (seq![k@] + present_keys(s.skip(1))) + (match x {
                    Some(k2) => seq![k2@],
                    None => Seq::<Seq<char>>::empty(),
                }));
            },
            None => {},
        }
    }
}

/// Turns the raw key list of a scan's transaction into the string keys
/// the scanner will drain, keeping order and dropping non-string keys.
pub fn collect_string_keys(raw: Vec<Option<String>>) -> (r: Vec<String>)
    ensures
        r.deep_view() == present_keys(raw@),
{
    let n: usize = raw.len();
    let mut out: Vec<String> = Vec::new();
    let mut i: usize = 0;
    while i < n
        invariant
            n == raw@.len(),
            i <= n,
            out.deep_view() == present_keys(raw@.take(i as int)),
        decreases n - i,
    {
        let ghost pre = out.deep_view();
        match &raw[i] {
            Some(k) => {
                out.push(k.clone());
                proof {
                    assert(out.deep_view() =~= pre.push(out@[out@.len() - 1]@));
                }
            },
            None => {},
        }
        proof {
            lemma_present_keys_push(raw@.take(i as int), raw@[i as int]);
            assert(raw@.take(i as int).push(raw@[i as int]) =~= raw@.take(i as int + 1));
            match raw@[i as int] {
                Some(k) => {
                    assert(out.deep_view() =~= present_keys(raw@.take(i as int + 1)));
                },
                None => {},
            }
        }
        i = i + 1;
    }
    proof {
        assert(raw@.take(n as int) =~= raw@);
    }
    out
}

/// Materialises the point-in-time key list for the prefix and hands it
/// to a fresh scanner: the scan's full matching list is pulled before
/// the scanner is returned, so later mutations of the space are not
/// reflected in it. The range is every key at or above `path` in the
/// store's order.
pub fn scan(space: &RecordSpace, path: &str) -> (sc: IndexeddbScanner)
    requires
        space.wf(),
    ensures
        sc.wf(),
        sc.position() == 0,
        forall|p: int, q: int|
            0 <= p < q < sc.keys_seq().len() ==> lex_lt(
                #[trigger] sc.keys_seq()[p],
                #[trigger] sc.keys_seq()[q],
            ),
        forall|k: Seq<char>|
            #[trigger] sc.keys_seq().contains(k) <==> space@.contains_key(k) && lex_leq(path@, k),
{
    IndexeddbScanner::new(space.keys_from(path))
}

} // verus!
