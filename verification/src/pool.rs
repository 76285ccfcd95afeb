//! The connection-pool manager: backend-variant configuration, the capacity
//! policy (an explicit `connection_limit` from the connection string, or a
//! default from the physical core count), health validation decisions, and
//! the pool's free-set/lease accounting.
use vstd::prelude::*;
use crate::error::{ConnectFailure, Error};
use crate::value::Value;

verus! {

/// Relies on num_cpus::get_physical, which always returns at least 1.
#[verifier::external_body]
pub fn physical_cores() -> (r: usize)
    ensures
        1 <= r,
{
    num_cpus::get_physical()
}

/// The default pool capacity for a machine with this many physical cores:
/// `cores * 2 + 1`, saturating at the 64-bit limit.
pub open spec fn spec_default_capacity(cores: int) -> int {
    if 2 * cores + 1 <= u64::MAX {
        2 * cores + 1
    } else {
        u64::MAX as int
    }
}

/// Computes the default pool capacity from the physical core count.
pub fn default_connection_limit(cores: usize) -> (r: u64)
    ensures
        r as int == spec_default_capacity(cores as int),
{
    if (cores as u64) <= (u64::MAX - 1) / 2 {
        (cores as u64) * 2 + 1
    } else {
        u64::MAX
    }
}

/// The characters of the connection string after the first `?`, if any: its
/// query string.
pub open spec fn spec_after(s: Seq<char>, c: char) -> Option<Seq<char>>
    decreases s.len(),
{
    if s.len() == 0 {
        Option::None
    } else if s[0] == c {
        Option::Some(s.skip(1))
    } else {
        spec_after(s.skip(1), c)
    }
}

/// The characters before the first occurrence of a separator (the whole
/// sequence if the separator does not occur).
pub open spec fn spec_before(s: Seq<char>, c: char) -> Seq<char>
    decreases s.len(),
{
    if s.len() == 0 {
        Seq::empty()
    } else if s[0] == c {
        Seq::empty()
    } else {
        seq![s[0]] + spec_before(s.skip(1), c)
    }
}

/// Splitting at the first occurrence of `c`, described by that occurrence's
/// index.
pub proof fn lemma_split_at_first(s: Seq<char>, c: char, i: int)
    requires
        0 <= i <= s.len(),
        forall|j: int| 0 <= j < i ==> s[j] != c,
        i < s.len() ==> s[i] == c,
    ensures
        spec_before(s, c) == s.take(i),
        i < s.len() ==> spec_after(s, c) == Option::Some(s.skip(i + 1)),
        i == s.len() ==> spec_after(s, c) is None,
    decreases s.len(),
{
    if s.len() == 0 {
        assert(spec_before(s, c) =~= s.take(i));
    } else if i == 0 {
        if s[0] == c {
            assert(spec_before(s, c) =~= s.take(0));
        } else {
            assert(false);
        }
    } else {
        assert(s[0] != c);
        let t = s.skip(1);
        assert(forall|j: int| 0 <= j < i - 1 ==> #[trigger] t[j] == s[j + 1]);
        lemma_split_at_first(t, c, i - 1);
        assert(spec_before(s, c) =~= seq![s[0]] + t.take(i - 1));
        assert(seq![s[0]] + t.take(i - 1) =~= s.take(i));
        if i < s.len() {
            assert(t.skip(i) =~= s.skip(i + 1));
        }
    }
}

/// The index of the first occurrence of a character, or the length.
pub fn find_first(s: &str, c: char) -> (r: usize)
    ensures
        r <= s@.len(),
        forall|j: int| 0 <= j < r ==> s@[j] != c,
        r < s@.len() ==> s@[r as int] == c,
{
    let n = s.unicode_len();
    let mut i: usize = 0;
    while i < n
        invariant
            n == s@.len(),
            0 <= i <= n,
            forall|j: int| 0 <= j < i ==> s@[j] != c,
        decreases n - i,
    {
        if s.get_char(i) == c {
            return i;
        }
        i += 1;
    }
    n
}

/// Whether a character is a decimal digit.
pub open spec fn is_digit(c: char) -> bool {
    '0' <= c <= '9'
}

/// Whether a value text is a well-formed decimal number: non-empty, digits
/// only.
pub open spec fn all_digits(s: Seq<char>) -> bool {
    s.len() > 0 && forall|j: int| 0 <= j < s.len() ==> is_digit(#[trigger] s[j])
}

/// The number a digit text denotes.
pub open spec fn spec_num(s: Seq<char>) -> int
    decreases s.len(),
{
    if s.len() == 0 {
        0
    } else {
        spec_num(s.drop_last()) * 10 + (s.last() as int - '0' as int)
    }
}

/// A digit text denotes a non-negative number.
pub proof fn lemma_num_nonneg(s: Seq<char>)
    requires
        forall|j: int| 0 <= j < s.len() ==> is_digit(#[trigger] s[j]),
    ensures
        spec_num(s) >= 0,
    decreases s.len(),
{
    if s.len() > 0 {
        assert(forall|j: int|
            0 <= j < s.drop_last().len() ==> is_digit(#[trigger] s.drop_last()[j]));
        lemma_num_nonneg(s.drop_last());
    }
}

/// A digit text denotes at least what any of its prefixes denotes.
pub proof fn lemma_num_prefix(s: Seq<char>, i: int)
    requires
        forall|j: int| 0 <= j < s.len() ==> is_digit(#[trigger] s[j]),
        0 <= i <= s.len(),
    ensures
        spec_num(s) >= spec_num(s.take(i)),
    decreases s.len() - i,
{
    if i < s.len() {
        assert(s.take(i + 1).drop_last() =~= s.take(i));
        assert(forall|j: int| 0 <= j < s.take(i + 1).len() ==> is_digit(#[trigger] s.take(i + 1)[j]));
        lemma_num_nonneg(s.take(i));
        assert(spec_num(s.take(i + 1)) >= spec_num(s.take(i)));
        lemma_num_prefix(s, i + 1);
        assert(s.take(s.len() as int) =~= s);
    } else {
        assert(s.take(i) =~= s);
    }
}

/// Parses a decimal value text: the number it denotes, when it is non-empty,
/// all digits, and within the 64-bit range.
pub fn parse_u64(s: &str) -> (r: Option<u64>)
    ensures
        match r {
            Option::Some(v) => all_digits(s@) && v as int == spec_num(s@),
            Option::None => !all_digits(s@) || spec_num(s@) > u64::MAX,
        },
{
    let n = s.unicode_len();
    if n == 0 {
        return Option::None;
    }
    let mut acc: u64 = 0;
    let mut i: usize = 0;
    proof {
        assert(s@.take(0) =~= Seq::<char>::empty());
    }
    while i < n
        invariant
            n == s@.len(),
            0 < n,
            0 <= i <= n,
            forall|j: int| 0 <= j < i ==> is_digit(#[trigger] s@[j]),
            acc as int == spec_num(s@.take(i as int)),
        decreases n - i,
    {
        let c = s.get_char(i);
        if c < '0' || c > '9' {
            return Option::None;
        }
        let d: u64 = (c as u32 as u64) - ('0' as u32 as u64);
        proof {
            assert(s@.take(i + 1).drop_last() =~= s@.take(i as int));
            assert(s@.take(i + 1).last() == s@[i as int]);
        }
        if acc > (u64::MAX - d) / 10 {
            proof {
                assert(spec_num(s@.take(i + 1)) > u64::MAX);
                assert forall|j: int| 0 <= j < s@.len() implies is_digit(#[trigger] s@[j]) || !all_digits(s@) by {}
                if all_digits(s@) {
                    lemma_num_prefix(s@, i + 1);
                }
            }
            return Option::None;
        }
        acc = acc * 10 + d;
        i += 1;
    }
    proof {
        assert(s@.take(n as int) =~= s@);
    }
    Option::Some(acc)
}

/// The value text of the first parameter of a query string carrying this
/// key, parameters separated by `&`, key and value by `=`.
pub open spec fn spec_lookup(q: Seq<char>, key: Seq<char>) -> Option<Seq<char>>
    decreases q.len(),
{
    let p = spec_before(q, '&');
    if spec_before(p, '=') == key && spec_before(p, '=').len() < p.len() {
        Option::Some(p.skip(spec_before(p, '=').len() + 1int))
    } else if p.len() + 1 <= q.len() {
        spec_lookup(q.skip(p.len() + 1int), key)
    } else {
        Option::None
    }
}

/// Looks up the first parameter with this key in a query string.
pub fn lookup_param(q: &str, key: &String) -> (r: Option<String>)
    ensures
        match r {
            Option::Some(v) => spec_lookup(q@, key@) == Option::Some(v@),
            Option::None => spec_lookup(q@, key@) is None,
        },
    decreases q@.len(),
{
    let n = q.unicode_len();
    let amp = find_first(q, '&');
    proof {
        lemma_split_at_first(q@, '&', amp as int);
    }
    let p = q.substring_char(0, amp);
    proof {
        assert(p@ =~= q@.take(amp as int));
    }
    let pn = p.unicode_len();
    let eq = find_first(p, '=');
    proof {
        lemma_split_at_first(p@, '=', eq as int);
    }
    let k = p.substring_char(0, eq);
    proof {
        assert(k@ =~= p@.take(eq as int));
    }
    if k.to_owned().eq(key) && eq < pn {
        let v = p.substring_char(eq + 1, pn);
        proof {
            assert(v@ =~= p@.skip(eq + 1));
        }
        Option::Some(v.to_owned())
    } else if amp < n {
        let rest = q.substring_char(amp + 1, n);
        proof {
            assert(rest@ =~= q@.skip(amp + 1));
        }
        lookup_param(rest, key)
    } else {
        proof {
            assert(p@.len() + 1 > q@.len());
        }
        Option::None
    }
}

/// The pool capacity override a connection string carries: the value of its
/// first `connection_limit` parameter, when that value is a positive decimal
/// number within the 64-bit range; anything else is ignored.
pub open spec fn spec_connection_limit(url: Seq<char>) -> Option<int> {
    match spec_after(url, '?') {
        Option::None => Option::None,
        Option::Some(q) => match spec_lookup(q, "connection_limit"@) {
            Option::None => Option::None,
            Option::Some(v) => if all_digits(v) && 0 < spec_num(v) <= u64::MAX {
                Option::Some(spec_num(v))
            } else {
                Option::None
            },
        },
    }
}

/// Reads the `connection_limit` override from a connection string.
pub fn connection_limit_of(url: &str) -> (r: Option<u64>)
    ensures
        match r {
            Option::Some(v) => spec_connection_limit(url@) == Option::Some(v as int),
            Option::None => spec_connection_limit(url@) is None,
        },
{
    let n = url.unicode_len();
    let qm = find_first(url, '?');
    proof {
        lemma_split_at_first(url@, '?', qm as int);
    }
    if qm == n {
        return Option::None;
    }
    let q = url.substring_char(qm + 1, n);
    proof {
        assert(q@ =~= url@.skip(qm + 1));
    }
    let key = "connection_limit".to_owned();
    match lookup_param(q, &key) {
        Option::None => Option::None,
        Option::Some(v) => match parse_u64(v.as_str()) {
            Option::Some(x) if x > 0 => Option::Some(x),
            _ => Option::None,
        },
    }
}

/// Connection info of the first relational network backend.
#[derive(Clone, Debug, PartialEq)]
pub struct MysqlUrl(pub String);

/// Connection info of the second relational network backend.
#[derive(Clone, Debug, PartialEq)]
pub struct PostgresUrl(pub String);

/// The pool's backend-variant configuration: immutable once the pool is
/// constructed, it selects which connect and validate logic runs.
#[derive(Clone, Debug, PartialEq)]
pub enum QuaintManager {
    Mysql(MysqlUrl),
    Postgres(PostgresUrl),
    Sqlite { file_path: String, db_name: String },
}

/// What opening one new connection takes: a network open, or a file open
/// followed by attaching the named logical database.
#[derive(Clone, Debug, PartialEq)]
pub enum ConnectPlan {
    OpenMysql { url: String },
    OpenPostgres { url: String },
    OpenSqliteThenAttach { file_path: String, db_name: String },
}

impl QuaintManager {
    /// The backend-specific steps that open one new connection.
    pub fn connect_plan(&self) -> (r: ConnectPlan)
        ensures
            match self {
                QuaintManager::Mysql(u) => r matches ConnectPlan::OpenMysql { url } && url@
                    == u.0@,
                QuaintManager::Postgres(u) => r matches ConnectPlan::OpenPostgres { url } && url@
                    == u.0@,
                QuaintManager::Sqlite { file_path: f, db_name: d } => r
                    matches ConnectPlan::OpenSqliteThenAttach { file_path, db_name } && file_path@
                    == f@ && db_name@ == d@,
            },
    {
        match self {
            QuaintManager::Mysql(u) => ConnectPlan::OpenMysql { url: u.0.clone() },
            QuaintManager::Postgres(u) => ConnectPlan::OpenPostgres { url: u.0.clone() },
            QuaintManager::Sqlite { file_path, db_name } => ConnectPlan::OpenSqliteThenAttach {
                file_path: file_path.clone(),
                db_name: db_name.clone(),
            },
        }
    }

    /// The trivial round-trip statement run before a pooled connection is
    /// handed to a caller.
    pub fn validation_statement(&self) -> (r: String)
        ensures
            r@ == "SELECT 1"@,
    {
        "SELECT 1".to_owned()
    }

    /// The lightweight pre-check always reports "not broken", deferring all
    /// cost to validation.
    pub fn has_broken(&self) -> (r: bool)
        ensures
            r == false,
    {
        false
    }
}

/// How the steps of opening a connection resolve: an open failure and an
/// attach failure stay distinct errors.
pub fn interpret_connect_steps(open_ok: bool, attach_ok: bool) -> (r: Result<(), Error>)
    ensures
        match r {
            Ok(_) => open_ok && attach_ok,
            Err(e) => if !open_ok {
                e == Error::Connect(ConnectFailure::Open)
            } else {
                !attach_ok && e == Error::Connect(ConnectFailure::Attach)
            },
        },
{
    if !open_ok {
        Err(Error::Connect(ConnectFailure::Open))
    } else if !attach_ok {
        Err(Error::Connect(ConnectFailure::Attach))
    } else {
        Ok(())
    }
}

/// Whether a validated connection is handed out or discarded: a failed
/// round trip is the one signal that discards and replaces a connection.
pub fn validation_decision(round_trip_ok: bool) -> (r: bool)
    ensures
        r == round_trip_ok,
{
    round_trip_ok
}

/// The pool's only concurrently mutated state: the free set and the
/// outstanding-lease count, guarded together.
#[derive(Clone, Debug)]
pub struct PoolState {
    /// Fixed capacity: the most connections alive at once.
    pub capacity: u64,
    /// Identifiers of idle connections, available for lease.
    pub free: Vec<u64>,
    /// How many connections are currently leased out.
    pub n_leased: u64,
    /// The next fresh connection identifier.
    pub next_conn: u64,
}

/// What one borrow request decides: lease an idle connection (to validate
/// before handing out), create a new one, or wait for a release.
#[derive(Clone, Copy, Debug, PartialEq, Eq, Structural)]
pub enum AcquireDecision {
    Lease(u64),
    Create(u64),
    Wait,
}

impl PoolState {
    /// The accounting invariant: live connections never exceed capacity.
    pub open spec fn wf(&self) -> bool {
        self.free@.len() + self.n_leased <= self.capacity
    }

    /// A fresh pool with no connections.
    pub fn new(capacity: u64) -> (r: PoolState)
        ensures
            r.wf(),
            r.capacity == capacity,
            r.free@.len() == 0,
            r.n_leased == 0,
    {
        PoolState { capacity, free: Vec::new(), n_leased: 0, next_conn: 0 }
    }

    /// Decides one borrow request: an idle connection is leased (and must be
    /// validated before use); with room below capacity a new connection is
    /// created; otherwise the caller waits for a release. No connection is
    /// handed to two callers at once.
    pub fn try_acquire(&mut self) -> (r: AcquireDecision)
        requires
            old(self).wf(),
        ensures
            final(self).wf(),
            final(self).capacity == old(self).capacity,
            match r {
                AcquireDecision::Lease(c) => {
                    &&& old(self).free@.len() > 0
                    &&& c == old(self).free@.last()
                    &&& final(self).free@ == old(self).free@.drop_last()
                    &&& final(self).n_leased == old(self).n_leased + 1
                },
                AcquireDecision::Create(c) => {
                    &&& old(self).free@.len() == 0
                    &&& old(self).n_leased < old(self).capacity
                    &&& c == old(self).next_conn
                    &&& final(self).n_leased == old(self).n_leased + 1
                    &&& final(self).free@ == old(self).free@
                },
                AcquireDecision::Wait => {
                    &&& *final(self) == *old(self)
                    &&& old(self).free@.len() == 0
                    &&& (old(self).n_leased == old(self).capacity || old(self).next_conn == u64::MAX)
                },
            },
    {
        if self.free.len() > 0 {
            match self.free.pop() {
                Option::Some(c) => {
                    self.n_leased = self.n_leased + 1;
                    AcquireDecision::Lease(c)
                },
                Option::None => {
                    proof {
                        assert(false);
                    }
                    AcquireDecision::Wait
                },
            }
        } else if self.n_leased < self.capacity && self.next_conn < u64::MAX {
            let c = self.next_conn;
            self.next_conn = c + 1;
            self.n_leased = self.n_leased + 1;
            AcquireDecision::Create(c)
        } else {
            AcquireDecision::Wait
        }
    }

    /// Returns a leased connection to the free set; every exit path of a
    /// lease, error paths included, ends here or in `discard`.
    pub fn release(&mut self, conn: u64) -> (r: bool)
        requires
            old(self).wf(),
        ensures
            final(self).wf(),
            final(self).capacity == old(self).capacity,
            r == (old(self).n_leased > 0),
            r ==> final(self).free@ == old(self).free@.push(conn),
            r ==> final(self).n_leased == old(self).n_leased - 1,
            !r ==> *final(self) == *old(self),
    {
        if self.n_leased > 0 {
            self.free.push(conn);
            self.n_leased = self.n_leased - 1;
            true
        } else {
            false
        }
    }

    /// Drops a leased connection that failed validation: its capacity slot is
    /// freed without returning it to the free set.
    pub fn discard(&mut self) -> (r: bool)
        requires
            old(self).wf(),
        ensures
            final(self).wf(),
            final(self).capacity == old(self).capacity,
            r == (old(self).n_leased > 0),
            r ==> final(self).n_leased == old(self).n_leased - 1,
            r ==> final(self).free@ == old(self).free@,
            !r ==> *final(self) == *old(self),
    {
        if self.n_leased > 0 {
            self.n_leased = self.n_leased - 1;
            true
        } else {
            false
        }
    }
}

/// Whether a connection string starts with this scheme prefix.
pub open spec fn has_prefix(s: Seq<char>, p: Seq<char>) -> bool {
    s.len() >= p.len() && s.take(p.len() as int) == p
}

/// Decides `has_prefix`.
pub fn check_prefix(s: &str, p: &str) -> (r: bool)
    ensures
        r == has_prefix(s@, p@),
{
    let n = s.unicode_len();
    let pn = p.unicode_len();
    if n < pn {
        return false;
    }
    let head = s.substring_char(0, pn);
    proof {
        assert(head@ =~= s@.take(pn as int));
    }
    head.to_owned().eq(&p.to_owned())
}

/// A constructed pool: the backend manager and the capacity policy, exposed
/// for introspection.
#[derive(Clone, Debug)]
pub struct Quaint {
    pub manager: QuaintManager,
    capacity: u64,
}

impl Quaint {
    /// Builds a pool for a connection string, deciding capacity from the
    /// string's `connection_limit` override or, absent one, from the machine:
    /// `cores * 2 + 1`. A string of no recognized scheme is refused as an
    /// open failure.
    pub fn new(url: &str) -> (r: Result<Quaint, Error>)
        ensures
            match r {
                Ok(pool) => match spec_connection_limit(url@) {
                    Option::Some(l) => pool.spec_capacity() == l,
                    Option::None => exists|cores: int|
                        1 <= cores && pool.spec_capacity() as int == #[trigger] spec_default_capacity(
                            cores,
                        ),
                },
                Err(e) => e == Error::Connect(ConnectFailure::Open) && !has_prefix(
                    url@,
                    "mysql://"@,
                ) && !has_prefix(url@, "postgres://"@) && !has_prefix(url@, "postgresql://"@)
                    && !has_prefix(url@, "file:"@),
            },
    {
        let cores = physical_cores();
        let r = Self::new_with_cores(url, cores);
        proof {
            match &r {
                Ok(pool) => {
                    if spec_connection_limit(url@) is None {
                        assert(1 <= cores as int && pool.spec_capacity() as int
                            == spec_default_capacity(cores as int));
                    }
                },
                Err(_) => {},
            }
        }
        r
    }

    /// Builds a pool for a connection string as if the machine had the given
    /// physical core count.
    pub fn new_with_cores(url: &str, cores: usize) -> (r: Result<Quaint, Error>)
        requires
            cores >= 1,
        ensures
            match r {
                Ok(pool) => match spec_connection_limit(url@) {
                    Option::Some(l) => pool.spec_capacity() == l,
                    Option::None => pool.spec_capacity() as int == spec_default_capacity(
                        cores as int,
                    ),
                },
                Err(e) => e == Error::Connect(ConnectFailure::Open) && !has_prefix(
                    url@,
                    "mysql://"@,
                ) && !has_prefix(url@, "postgres://"@) && !has_prefix(url@, "postgresql://"@)
                    && !has_prefix(url@, "file:"@),
            },
    {
        let manager = if check_prefix(url, "mysql://") {
            QuaintManager::Mysql(MysqlUrl(url.to_owned()))
        } else if check_prefix(url, "postgres://") || check_prefix(url, "postgresql://") {
            QuaintManager::Postgres(PostgresUrl(url.to_owned()))
        } else if check_prefix(url, "file:") {
            proof {
                reveal_strlit("file:");
            }
            let n = url.unicode_len();
            let path_and_params = url.substring_char(5, n);
            let qm = find_first(path_and_params, '?');
            let file_path = path_and_params.substring_char(0, qm).to_owned();
            QuaintManager::Sqlite { file_path, db_name: "quaint".to_owned() }
        } else {
            return Err(Error::Connect(ConnectFailure::Open));
        };
        let capacity = match connection_limit_of(url) {
            Option::Some(l) => l,
            Option::None => default_connection_limit(cores),
        };
        Ok(Quaint { manager, capacity })
    }

    /// The pool's capacity as the contracts see it.
    pub closed spec fn spec_capacity(&self) -> u64 {
        self.capacity
    }

    /// The pool's current capacity, for introspection and testing.
    pub fn capacity(&self) -> (r: u64)
        ensures
            r == self.spec_capacity(),
    {
        self.capacity
    }
}

/// An opaque structured query the engine above this core hands in.
#[derive(Clone, Debug)]
pub struct Query {
    pub text: String,
    pub params: Vec<Value>,
}

/// A rectangular result set of a structured or raw query.
#[derive(Clone, Debug)]
pub struct ResultSet {
    pub columns: Vec<String>,
    pub rows: Vec<Vec<Value>>,
}

/// The capability set every backend connection implements: structured
/// query/execute, raw SQL, foreign-key-constraint toggling, and raw commands.
pub trait Queryable {
    /// Executes a structured write, returning the generated key if any.
    fn execute(&mut self, q: &Query) -> Result<Option<Value>, Error>;

    /// Runs a structured query.
    fn query(&mut self, q: &Query) -> Result<ResultSet, Error>;

    /// Runs a raw, parameterized SQL query.
    fn query_raw(&mut self, sql: &str, params: &Vec<Value>) -> Result<ResultSet, Error>;

    /// Executes a raw, parameterized SQL statement, returning the affected
    /// row count.
    fn execute_raw(&mut self, sql: &str, params: &Vec<Value>) -> Result<u64, Error>;

    /// Turns foreign-key constraints off.
    fn turn_off_fk_constraints(&mut self) -> Result<(), Error>;

    /// Turns foreign-key constraints on.
    fn turn_on_fk_constraints(&mut self) -> Result<(), Error>;

    /// Runs a raw command, discarding its result.
    fn raw_cmd(&mut self, cmd: &str) -> Result<(), Error>;
}

/// Marks a connection as able to open transactions.
pub trait TransactionCapable {

}

/// A connection leased from the pool: a thin wrapper forwarding every
/// capability verbatim to the leased connection. Releasing the lease when the
/// handle's scope ends is the pool runner's concern.
#[derive(Debug)]
pub struct PooledConnection<C: Queryable> {
    pub inner: C,
}

impl<C: Queryable> TransactionCapable for PooledConnection<C> {

}

impl<C: Queryable> Queryable for PooledConnection<C> {
    fn execute(&mut self, q: &Query) -> Result<Option<Value>, Error> {
        self.inner.execute(q)
    }

    fn query(&mut self, q: &Query) -> Result<ResultSet, Error> {
        self.inner.query(q)
    }

    fn query_raw(&mut self, sql: &str, params: &Vec<Value>) -> Result<ResultSet, Error> {
        self.inner.query_raw(sql, params)
    }

    fn execute_raw(&mut self, sql: &str, params: &Vec<Value>) -> Result<u64, Error> {
        self.inner.execute_raw(sql, params)
    }

    fn turn_off_fk_constraints(&mut self) -> Result<(), Error> {
        self.inner.turn_off_fk_constraints()
    }

    fn turn_on_fk_constraints(&mut self) -> Result<(), Error> {
        self.inner.turn_on_fk_constraints()
    }

    fn raw_cmd(&mut self, cmd: &str) -> Result<(), Error> {
        self.inner.raw_cmd(cmd)
    }
}

} // verus!
