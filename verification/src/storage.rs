//! The transaction store: persistence model of transaction records and their
//! dependency edges, with atomic batch insert, priority-ordered lookup of the
//! next dispatchable record, and status update.

use vstd::prelude::*;

use crate::clock::now_millis;
use crate::order::char_seq_lt;
use crate::order::str_lt;

verus! {

/// Lifecycle stage of a transaction record.
#[derive(Clone, Copy, Debug, PartialEq, Eq, Structural)]
pub enum TransactionStatus {
    Pending,
    Validated,
    Propagated,
    Failed,
}

/// Coarse dispatch precedence levels offered to submitters; a smaller level
/// means higher precedence.
#[allow(non_camel_case_types)]
#[derive(Clone, Copy, Debug, PartialEq, Eq, Structural)]
pub enum TransactionPriority {
    LOW,
    MEDIUM,
    HIGH,
}

/// Failure conditions of the store operations.
#[derive(Clone, Copy, Debug, PartialEq, Eq, Structural)]
pub enum StoreError {
    /// A batch insert carried an id already present, or repeated an id or a
    /// dependency pair within the batch; the whole batch is rejected.
    DuplicateId,
    /// A batch insert referenced a required id absent at the time of the
    /// write; the whole batch is rejected.
    DependencyNotFound,
    /// An update targeted an id that does not exist.
    NotFound,
    /// The stored data could not be read back (an unknown status or priority
    /// encoding).
    StorageUnavailable,
}

/// Values of the store configuration surface.
pub struct Config {
    pub db_path: String,
}

/// A transaction record as persisted by the store.
pub struct Transaction {
    pub id: String,
    pub raw: Vec<u8>,
    pub status: TransactionStatus,
    pub priority: u32,
    pub dependencies: Option<Vec<String>>,
    pub created_at: i64,
    pub updated_at: i64,
}

/// A transaction record in its row encoding: the status carried as text, as
/// the persisted schema stores it.
pub struct TransactionStorage {
    pub id: String,
    pub raw: Vec<u8>,
    pub status: String,
    pub priority: u32,
    pub dependences: Option<Vec<String>>,
    pub created_at: i64,
    pub updated_at: i64,
}

/// Mathematical model of a transaction record.
pub ghost struct TxView {
    pub id: Seq<char>,
    pub raw: Seq<u8>,
    pub status: TransactionStatus,
    pub priority: u32,
    pub dependencies: Seq<Seq<char>>,
    pub created_at: int,
    pub updated_at: int,
}

/// An absent dependency list and an empty one model the same thing: a record
/// with nothing to wait for.
pub open spec fn deps_view(d: Option<Vec<String>>) -> Seq<Seq<char>> {
    match d {
        None => Seq::empty(),
        Some(v) => v@.map_values(|s: String| s@),
    }
}

impl View for Transaction {
    type V = TxView;

    open spec fn view(&self) -> TxView {
        TxView {
            id: self.id@,
            raw: self.raw@,
            status: self.status,
            priority: self.priority,
            dependencies: deps_view(self.dependencies),
            created_at: self.created_at as int,
            updated_at: self.updated_at as int,
        }
    }
}

/// The persisted text encoding of each status value.
pub open spec fn status_text(s: TransactionStatus) -> Seq<char> {
    match s {
        TransactionStatus::Pending => "pending"@,
        TransactionStatus::Validated => "validated"@,
        TransactionStatus::Propagated => "propagated"@,
        TransactionStatus::Failed => "failed"@,
    }
}

/// Reading a status back from its text encoding; an unknown encoding is a
/// corruption condition, not a default.
pub open spec fn spec_parse_status(s: Seq<char>) -> Result<TransactionStatus, StoreError> {
    if s == status_text(TransactionStatus::Pending) {
        Ok(TransactionStatus::Pending)
    } else if s == status_text(TransactionStatus::Validated) {
        Ok(TransactionStatus::Validated)
    } else if s == status_text(TransactionStatus::Propagated) {
        Ok(TransactionStatus::Propagated)
    } else if s == status_text(TransactionStatus::Failed) {
        Ok(TransactionStatus::Failed)
    } else {
        Err(StoreError::StorageUnavailable)
    }
}

impl TransactionStatus {
    /// The text under which this status is persisted.
    pub fn encode(&self) -> (r: String)
        ensures
            r@ == status_text(*self),
    {
        match self {
            TransactionStatus::Pending => "pending".to_owned(),
            TransactionStatus::Validated => "validated".to_owned(),
            TransactionStatus::Propagated => "propagated".to_owned(),
            TransactionStatus::Failed => "failed".to_owned(),
        }
    }

    /// Decodes a persisted status text; fails as a corruption condition on
    /// any unknown encoding.
    pub fn parse(s: &str) -> (r: Result<TransactionStatus, StoreError>)
        ensures
            r == spec_parse_status(s@),
    {
        let owned = s.to_owned();
        if owned == "pending".to_owned() {
            Ok(TransactionStatus::Pending)
        } else if owned == "validated".to_owned() {
            Ok(TransactionStatus::Validated)
        } else if owned == "propagated".to_owned() {
            Ok(TransactionStatus::Propagated)
        } else if owned == "failed".to_owned() {
            Ok(TransactionStatus::Failed)
        } else {
            Err(StoreError::StorageUnavailable)
        }
    }
}

/// Every status text decodes back to the status it encodes.
pub proof fn lemma_status_text_round_trip(s: TransactionStatus)
    ensures
        spec_parse_status(status_text(s)) == Ok::<TransactionStatus, StoreError>(s),
{
    reveal_strlit("pending");
    reveal_strlit("validated");
    reveal_strlit("propagated");
    reveal_strlit("failed");
    assert(status_text(TransactionStatus::Pending).len() == 7);
    assert(status_text(TransactionStatus::Validated).len() == 9);
    assert(status_text(TransactionStatus::Propagated).len() == 10);
    assert(status_text(TransactionStatus::Failed).len() == 6);
}

/// The dispatch precedence of each priority level; a smaller number is
/// dispatched earlier.
pub open spec fn priority_level(p: TransactionPriority) -> u32 {
    match p {
        TransactionPriority::HIGH => 0,
        TransactionPriority::MEDIUM => 1,
        TransactionPriority::LOW => 2,
    }
}

/// Reading a priority level back from its numeric encoding.
pub open spec fn spec_priority_from_level(l: u32) -> Result<TransactionPriority, StoreError> {
    if l == 0 {
        Ok(TransactionPriority::HIGH)
    } else if l == 1 {
        Ok(TransactionPriority::MEDIUM)
    } else if l == 2 {
        Ok(TransactionPriority::LOW)
    } else {
        Err(StoreError::StorageUnavailable)
    }
}

impl TransactionPriority {
    /// The numeric precedence under which this level is persisted.
    pub fn level(&self) -> (r: u32)
        ensures
            r == priority_level(*self),
    {
        match self {
            TransactionPriority::HIGH => 0,
            TransactionPriority::MEDIUM => 1,
            TransactionPriority::LOW => 2,
        }
    }

    /// Decodes a persisted priority level; fails as a corruption condition
    /// on any unknown encoding.
    pub fn from_level(l: u32) -> (r: Result<TransactionPriority, StoreError>)
        ensures
            r == spec_priority_from_level(l),
    {
        if l == 0 {
            Ok(TransactionPriority::HIGH)
        } else if l == 1 {
            Ok(TransactionPriority::MEDIUM)
        } else if l == 2 {
            Ok(TransactionPriority::LOW)
        } else {
            Err(StoreError::StorageUnavailable)
        }
    }
}

/// Every priority level decodes back to the level it encodes.
pub proof fn lemma_priority_level_round_trip(p: TransactionPriority)
    ensures
        spec_priority_from_level(priority_level(p)) == Ok::<TransactionPriority, StoreError>(p),
{
}

fn clone_bytes(v: &Vec<u8>) -> (r: Vec<u8>)
    ensures
        r@ == v@,
{
    let mut out: Vec<u8> = Vec::new();
    let mut i: usize = 0;
    proof {
        assert(v@.take(0) =~= out@);
    }
    while i < v.len()
        invariant
            i <= v@.len(),
            out@ == v@.take(i as int),
        decreases v@.len() - i,
    {
        out.push(v[i]);
        proof {
            assert(v@.take(i as int).push(v@[i as int]) =~= v@.take(i + 1));
        }
        i = i + 1;
    }
    proof {
        assert(v@.take(v@.len() as int) =~= v@);
    }
    out
}

fn clone_strings(v: &Vec<String>) -> (r: Vec<String>)
    ensures
        r@ == v@,
{
    let mut out: Vec<String> = Vec::new();
    let mut i: usize = 0;
    proof {
        assert(v@.take(0) =~= out@);
    }
    while i < v.len()
        invariant
            i <= v@.len(),
            out@ == v@.take(i as int),
        decreases v@.len() - i,
    {
        out.push(v[i].clone());
        proof {
            assert(v@.take(i as int).push(v@[i as int]) =~= v@.take(i + 1));
        }
        i = i + 1;
    }
    proof {
        assert(v@.take(v@.len() as int) =~= v@);
    }
    out
}

/// A field-for-field copy of a record.
pub fn clone_tx(t: &Transaction) -> (r: Transaction)
    ensures
        r@ == t@,
{
    let dependencies = match &t.dependencies {
        None => None,
        Some(d) => Some(clone_strings(d)),
    };
    Transaction {
        id: t.id.clone(),
        raw: clone_bytes(&t.raw),
        status: t.status,
        priority: t.priority,
        dependencies,
        created_at: t.created_at,
        updated_at: t.updated_at,
    }
}

impl Transaction {
    /// Constructs a record as the ingress boundary does: status Pending and
    /// both timestamps stamped with a single reading of the clock.
    pub fn new(
        id: String,
        raw: Vec<u8>,
        priority: TransactionPriority,
        dependencies: Option<Vec<String>>,
    ) -> (r: Transaction)
        ensures
            r@.id == id@,
            r@.raw == raw@,
            r@.status == TransactionStatus::Pending,
            r@.priority == priority_level(priority),
            r@.dependencies == deps_view(dependencies),
            r@.created_at == r@.updated_at,
    {
        let now = now_millis();
        Transaction {
            id,
            raw,
            status: TransactionStatus::Pending,
            priority: priority.level(),
            dependencies,
            created_at: now,
            updated_at: now,
        }
    }

    /// Decodes a row into a record; an unknown status text is rejected as a
    /// corruption condition, never defaulted.
    pub fn from_record(row: &TransactionStorage) -> (r: Result<Transaction, StoreError>)
        ensures
            match r {
                Ok(t) => spec_parse_status(row.status@) == Ok::<TransactionStatus, StoreError>(
                    t@.status,
                ) && t@.id == row.id@ && t@.raw == row.raw@ && t@.priority == row.priority
                    && t@.dependencies == deps_view(row.dependences) && t@.created_at
                    == row.created_at && t@.updated_at == row.updated_at,
                Err(e) => spec_parse_status(row.status@) == Err::<TransactionStatus, StoreError>(e),
            },
    {
        match TransactionStatus::parse(row.status.as_str()) {
            Ok(status) => {
                let dependencies = match &row.dependences {
                    None => None,
                    Some(d) => Some(clone_strings(d)),
                };
                Ok(
                    Transaction {
                        id: row.id.clone(),
                        raw: clone_bytes(&row.raw),
                        status,
                        priority: row.priority,
                        dependencies,
                        created_at: row.created_at,
                        updated_at: row.updated_at,
                    },
                )
            },
            Err(e) => Err(e),
        }
    }

    /// Encodes a record into its row shape, with the status as text.
    pub fn to_record(&self) -> (r: TransactionStorage)
        ensures
            r.id@ == self@.id,
            r.raw@ == self@.raw,
            r.status@ == status_text(self@.status),
            r.priority == self@.priority,
            deps_view(r.dependences) == self@.dependencies,
            r.created_at == self@.created_at,
            r.updated_at == self@.updated_at,
    {
        let dependences = match &self.dependencies {
            None => None,
            Some(d) => Some(clone_strings(d)),
        };
        TransactionStorage {
            id: self.id.clone(),
            raw: clone_bytes(&self.raw),
            status: self.status.encode(),
            priority: self.priority,
            dependences,
            created_at: self.created_at,
            updated_at: self.updated_at,
        }
    }
}

impl Default for Transaction {
    /// The sample record the store's tests start from: id "hex", the bytes
    /// of "hex", status Pending, priority 1, no dependencies, both stamps
    /// from a single reading of the clock.
    fn default() -> (r: Transaction)
        ensures
            r@.id == "hex"@,
            r@.raw == seq![104u8, 101u8, 120u8],
            r@.status == TransactionStatus::Pending,
            r@.priority == 1,
            r@.dependencies == Seq::<Seq<char>>::empty(),
            r@.created_at == r@.updated_at,
    {
        let now = now_millis();
        let raw: Vec<u8> = vec![104u8, 101u8, 120u8];
        proof {
            assert(raw@ =~= seq![104u8, 101u8, 120u8]);
        }
        Transaction {
            id: "hex".to_owned(),
            raw,
            status: TransactionStatus::Pending,
            priority: 1,
            dependencies: None,
            created_at: now,
            updated_at: now,
        }
    }
}

/// The models of a sequence of records, in insertion order.
pub open spec fn views(records: Seq<Transaction>) -> Seq<TxView> {
    records.map_values(|t: Transaction| t@)
}

/// Whether some record of the store carries the given id.
pub open spec fn spec_contains_id(v: Seq<TxView>, id: Seq<char>) -> bool {
    exists|i: int| 0 <= i < v.len() && v[i].id == id
}

/// No two records share an id.
pub open spec fn ids_unique(v: Seq<TxView>) -> bool {
    forall|i: int, j: int|
        0 <= i < v.len() && 0 <= j < v.len() && i != j ==> (#[trigger] v[i].id) != (
        #[trigger] v[j].id)
}

/// Every record was updated no earlier than it was created.
pub open spec fn stamps_ok(v: Seq<TxView>) -> bool {
    forall|i: int| 0 <= i < v.len() ==> (#[trigger] v[i]).updated_at >= v[i].created_at
}

/// Every dependency edge points at another record that exists; no record
/// depends on itself.
pub open spec fn deps_exist(v: Seq<TxView>) -> bool {
    forall|i: int, k: int|
        0 <= i < v.len() && 0 <= k < v[i].dependencies.len() ==> spec_contains_id(
            v,
            #[trigger] v[i].dependencies[k],
        ) && v[i].dependencies[k] != v[i].id
}

/// Well-formedness of a store state.
pub open spec fn wf(v: Seq<TxView>) -> bool {
    ids_unique(v) && stamps_ok(v) && deps_exist(v)
}

/// A record is eligible for dispatch at a target status when its status
/// matches and its dependency set is empty.
pub open spec fn spec_ready(t: TxView, status: TransactionStatus) -> bool {
    t.status == status && t.dependencies.len() == 0
}

/// The dispatch precedence order: ascending priority, then ascending
/// creation time, ties broken by id.
pub open spec fn rank_lt(a: TxView, b: TxView) -> bool {
    ||| a.priority < b.priority
    ||| (a.priority == b.priority && a.created_at < b.created_at)
    ||| (a.priority == b.priority && a.created_at == b.created_at && char_seq_lt(a.id, b.id))
}

/// The best-ranked ready record of a store, if any.
pub open spec fn spec_next(v: Seq<TxView>, status: TransactionStatus) -> Option<TxView>
    decreases v.len(),
{
    if v.len() == 0 {
        None
    } else {
        let prev = spec_next(v.drop_last(), status);
        let last = v.last();
        if !spec_ready(last, status) {
            prev
        } else {
            match prev {
                None => Some(last),
                Some(p) => if rank_lt(last, p) {
                    Some(last)
                } else {
                    Some(p)
                },
            }
        }
    }
}

/// Checking one dependency list against a store state, edge by edge: a
/// missing required id fails the batch, and so does a repeated pair.
pub open spec fn dep_check(v: Seq<TxView>, deps: Seq<Seq<char>>, k: int) -> Option<StoreError>
    decreases deps.len() - k,
{
    if k < 0 || k >= deps.len() {
        None
    } else if !spec_contains_id(v, deps[k]) {
        Some(StoreError::DependencyNotFound)
    } else if exists|j: int| 0 <= j < k && deps[j] == deps[k] {
        Some(StoreError::DuplicateId)
    } else {
        dep_check(v, deps, k + 1)
    }
}

/// The constraint check one record of a batch must pass against the store
/// state it is written into.
pub open spec fn record_error(v: Seq<TxView>, t: TxView) -> Option<StoreError> {
    if spec_contains_id(v, t.id) {
        Some(StoreError::DuplicateId)
    } else {
        dep_check(v, t.dependencies, 0)
    }
}

/// The atomic batch insert: either every record and every edge is appended,
/// or the state is rejected whole. Each record is checked against the store
/// as already extended by the records before it in the batch, so a reference
/// to an id earlier in the batch succeeds while a forward or self reference
/// fails.
pub open spec fn spec_create(v: Seq<TxView>, batch: Seq<TxView>, i: int) -> Result<
    Seq<TxView>,
    StoreError,
>
    decreases batch.len() - i,
{
    if i < 0 || i >= batch.len() {
        Ok(v)
    } else {
        match record_error(v, batch[i]) {
            Some(e) => Err(e),
            None => spec_create(v.push(batch[i]), batch, i + 1),
        }
    }
}

/// One record after an update: the new payload and status, and an
/// `updated_at` stamp that never goes backwards.
pub open spec fn updated_view(r: TxView, t: TxView, now: int) -> TxView {
    TxView {
        raw: t.raw,
        status: t.status,
        updated_at: if now > r.updated_at {
            now
        } else {
            r.updated_at
        },
        ..r
    }
}

/// The status update: the record carrying the id of `t` is rewritten, every
/// other record is untouched; an absent id is an error.
pub open spec fn spec_update(v: Seq<TxView>, t: TxView, now: int) -> Result<
    Seq<TxView>,
    StoreError,
> {
    if spec_contains_id(v, t.id) {
        Ok(
            v.map(
                |j: int, r: TxView|
                    if r.id == t.id {
                        updated_view(r, t, now)
                    } else {
                        r
                    },
            ),
        )
    } else {
        Err(StoreError::NotFound)
    }
}

/// The record a store holds under an id, if any.
pub open spec fn spec_get(v: Seq<TxView>, id: Seq<char>) -> Option<TxView> {
    if spec_contains_id(v, id) {
        Some(v[choose|i: int| 0 <= i < v.len() && v[i].id == id])
    } else {
        None
    }
}

/// The model of an optional owned record.
pub open spec fn opt_view(o: Option<Transaction>) -> Option<TxView> {
    match o {
        None => None,
        Some(t) => Some(t@),
    }
}

fn find_index(records: &Vec<Transaction>, id: &String) -> (r: Option<usize>)
    ensures
        match r {
            Some(i) => i < records@.len() && views(records@)[i as int].id == id@,
            None => !spec_contains_id(views(records@), id@),
        },
{
    let mut i: usize = 0;
    while i < records.len()
        invariant
            i <= records@.len(),
            forall|j: int| 0 <= j < i ==> (#[trigger] views(records@)[j]).id != id@,
        decreases records@.len() - i,
    {
        if records[i].id == *id {
            proof {
                assert(views(records@)[i as int].id == id@);
            }
            return Some(i);
        }
        i = i + 1;
    }
    None
}

/// The transaction store: the single source of truth shared by ingress and
/// dispatch. Records are held in insertion order.
pub struct TransactionStore {
    records: Vec<Transaction>,
}

impl View for TransactionStore {
    type V = Seq<TxView>;

    closed spec fn view(&self) -> Seq<TxView> {
        views(self.records@)
    }
}

impl TransactionStore {
    /// An empty store.
    pub fn new() -> (r: TransactionStore)
        ensures
            r@ == Seq::<TxView>::empty(),
            wf(r@),
    {
        let r = TransactionStore { records: Vec::new() };
        proof {
            assert(r@ =~= Seq::<TxView>::empty());
        }
        r
    }

    /// Whether a record with the given id is present.
    pub fn contains(&self, id: &String) -> (r: bool)
        ensures
            r == spec_contains_id(self@, id@),
    {
        match find_index(&self.records, id) {
            Some(i) => {
                proof {
                    assert((i as int) < self@.len() && self@[i as int].id == id@);
                }
                true
            },
            None => false,
        }
    }

    /// The record under an id, if any.
    pub fn get(&self, id: &String) -> (r: Option<&Transaction>)
        requires
            wf(self@),
        ensures
            match r {
                Some(t) => spec_get(self@, id@) == Some(t@),
                None => spec_get(self@, id@) is None,
            },
    {
        match find_index(&self.records, id) {
            Some(i) => {
                proof {
                    assert((i as int) < self@.len() && self@[i as int].id == id@);
                    let j = choose|j: int| 0 <= j < self@.len() && self@[j].id == id@;
                    assert(j == i as int);
                }
                Some(&self.records[i])
            },
            None => None,
        }
    }
}

/// A clean dependency check means every required id is present.
proof fn lemma_dep_check_clean(v: Seq<TxView>, deps: Seq<Seq<char>>, k: int)
    requires
        0 <= k,
        dep_check(v, deps, k) is None,
    ensures
        forall|m: int| k <= m < deps.len() ==> spec_contains_id(v, #[trigger] deps[m]),
    decreases deps.len() - k,
{
    if k < deps.len() {
        lemma_dep_check_clean(v, deps, k + 1);
    }
}

/// Appending a record that passed its constraint check keeps the store
/// well-formed.
proof fn lemma_wf_push(v: Seq<TxView>, t: TxView)
    requires
        wf(v),
        record_error(v, t) is None,
        t.updated_at >= t.created_at,
    ensures
        wf(v.push(t)),
{
    let w = v.push(t);
    assert(!spec_contains_id(v, t.id));
    lemma_dep_check_clean(v, t.dependencies, 0);
    assert forall|i: int, j: int|
        0 <= i < w.len() && 0 <= j < w.len() && i != j implies (#[trigger] w[i].id) != (
    #[trigger] w[j].id) by {
        if i < v.len() && j < v.len() {
            assert(v[i].id != v[j].id);
        } else if i == v.len() {
            if w[j].id == t.id {
                assert(v[j].id == t.id);
                assert(spec_contains_id(v, t.id));
            }
        } else {
            if w[i].id == t.id {
                assert(v[i].id == t.id);
                assert(spec_contains_id(v, t.id));
            }
        }
    }
    assert forall|i: int, k: int|
        0 <= i < w.len() && 0 <= k < w[i].dependencies.len() implies spec_contains_id(
        w,
        #[trigger] w[i].dependencies[k],
    ) && w[i].dependencies[k] != w[i].id by {
        if i < v.len() {
            assert(spec_contains_id(v, v[i].dependencies[k]) && v[i].dependencies[k] != v[i].id);
            let j = choose|j: int| 0 <= j < v.len() && v[j].id == v[i].dependencies[k];
            assert(w[j].id == w[i].dependencies[k]);
        } else {
            assert(w[i] == t);
            assert(spec_contains_id(v, t.dependencies[k]));
            let j = choose|j: int| 0 <= j < v.len() && v[j].id == t.dependencies[k];
            assert(w[j].id == w[i].dependencies[k]);
            if t.dependencies[k] == t.id {
                assert(spec_contains_id(v, t.id));
            }
        }
    }
}

#[verifier::loop_isolation(false)]
fn check_record(records: &Vec<Transaction>, tx: &Transaction) -> (r: Option<StoreError>)
    ensures
        r == record_error(views(records@), tx@),
{
    let ghost v = views(records@);
    match find_index(records, &tx.id) {
        Some(i) => {
            proof {
                assert(v[i as int].id == tx@.id);
                assert(spec_contains_id(v, tx@.id));
            }
            return Some(StoreError::DuplicateId);
        },
        None => {},
    }
    match &tx.dependencies {
        None => {
            proof {
                assert(tx@.dependencies =~= Seq::<Seq<char>>::empty());
            }
            None
        },
        Some(deps) => {
            let ghost dseq = tx@.dependencies;
            let mut k: usize = 0;
            while k < deps.len()
                invariant
                    k <= deps@.len(),
                    v == views(records@),
                    dseq == tx@.dependencies,
                    dseq == deps@.map_values(|s: String| s@),
                    dep_check(v, dseq, 0) == dep_check(v, dseq, k as int),
                decreases deps@.len() - k,
            {
                proof {
                    assert(dseq[k as int] == deps@[k as int]@);
                }
                match find_index(records, &deps[k]) {
                    None => {
                        proof {
                            assert(dep_check(v, dseq, k as int) == Some(
                                StoreError::DependencyNotFound,
                            ));
                        }
                        return Some(StoreError::DependencyNotFound);
                    },
                    Some(fi) => {
                        proof {
                            assert(v[fi as int].id == dseq[k as int]);
                            assert(spec_contains_id(v, dseq[k as int]));
                        }
                    },
                }
                let mut j: usize = 0;
                while j < k
                    invariant
                        j <= k,
                        k < deps@.len(),
                        dseq == deps@.map_values(|s: String| s@),
                        forall|m: int| 0 <= m < j ==> (#[trigger] dseq[m]) != dseq[k as int],
                    decreases k - j,
                {
                    if deps[j] == deps[k] {
                        proof {
                            assert(dseq[j as int] == dseq[k as int]);
                            assert(spec_contains_id(v, dseq[k as int]));
                            assert(dep_check(v, dseq, k as int) == Some(StoreError::DuplicateId));
                        }
                        return Some(StoreError::DuplicateId);
                    }
                    j = j + 1;
                }
                proof {
                    assert(spec_contains_id(v, dseq[k as int]));
                    assert(!(exists|m: int| 0 <= m < k && dseq[m] == dseq[k as int]));
                    assert(dep_check(v, dseq, k as int) == dep_check(v, dseq, k as int + 1));
                }
                k = k + 1;
            }
            proof {
                assert(dep_check(v, dseq, dseq.len() as int) is None);
            }
            None
        },
    }
}

impl TransactionStore {
    /// Inserts all given records and their dependency edges as a single
    /// atomic unit: either every record and every edge is persisted, or the
    /// store is left unchanged. Uniqueness of ids and existence of every
    /// referenced dependency are enforced within the same unit; a batch with
    /// a forward, circular or self reference fails with `DependencyNotFound`.
    #[verifier::loop_isolation(false)]
    pub fn create(&mut self, txs: &Vec<Transaction>) -> (r: Result<(), StoreError>)
        requires
            wf(old(self)@),
            forall|m: int|
                0 <= m < txs@.len() ==> (#[trigger] txs@[m])@.updated_at >= txs@[m]@.created_at,
        ensures
            wf(final(self)@),
            match r {
                Ok(()) => Ok::<Seq<TxView>, StoreError>(final(self)@) == spec_create(
                    old(self)@,
                    views(txs@),
                    0,
                ),
                Err(e) => final(self)@ == old(self)@ && Err::<Seq<TxView>, StoreError>(e)
                    == spec_create(
                    old(self)@,
                    views(txs@),
                    0,
                ),
            },
    {
        let ghost base = self@;
        let ghost batch = views(txs@);
        let base_len = self.records.len();
        let mut i: usize = 0;
        proof {
            assert(base + batch.take(0) =~= base);
        }
        while i < txs.len()
            invariant
                i <= txs@.len(),
                batch == views(txs@),
                base == views(old(self).records@),
                base_len == base.len(),
                self@ == base + batch.take(i as int),
                spec_create(base, batch, 0) == spec_create(self@, batch, i as int),
                wf(self@),
                forall|m: int|
                    0 <= m < txs@.len() ==> (#[trigger] txs@[m])@.updated_at
                        >= txs@[m]@.created_at,
            decreases txs@.len() - i,
        {
            let tx = &txs[i];
            proof {
                assert(batch[i as int] == tx@);
            }
            match check_record(&self.records, tx) {
                Some(e) => {
                    proof {
                        assert(spec_create(self@, batch, i as int) == Err::<
                            Seq<TxView>,
                            StoreError,
                        >(e));
                    }
                    let ghost cur = self.records@;
                    self.records.truncate(base_len);
                    proof {
                        assert(self.records@ == cur.subrange(0, base_len as int));
                        assert(views(cur.subrange(0, base_len as int)) =~= views(cur).subrange(
                            0,
                            base_len as int,
                        ));
                        assert((base + batch.take(i as int)).subrange(0, base_len as int) =~= base);
                    }
                    return Err(e);
                },
                None => {
                    let c = clone_tx(tx);
                    let ghost cur = self@;
                    self.records.push(c);
                    proof {
                        assert(self@ =~= cur.push(tx@));
                        assert(cur.push(batch[i as int]) =~= base + batch.take(i as int + 1));
                        lemma_wf_push(cur, tx@);
                    }
                    i = i + 1;
                },
            }
        }
        proof {
            assert(batch.take(batch.len() as int) =~= batch);
        }
        Ok(())
    }

    /// Persists a new status and payload for an existing record, stamping
    /// `updated_at` with the given clock reading, never backwards. Fails
    /// with `NotFound` if and only if the id does not exist, leaving the
    /// store unchanged.
    pub fn update(&mut self, tx: &Transaction, now: i64) -> (r: Result<(), StoreError>)
        requires
            wf(old(self)@),
        ensures
            wf(final(self)@),
            match r {
                Ok(()) => Ok::<Seq<TxView>, StoreError>(final(self)@) == spec_update(
                    old(self)@,
                    tx@,
                    now as int,
                ),
                Err(e) => final(self)@ == old(self)@ && Err::<Seq<TxView>, StoreError>(e)
                    == spec_update(
                    old(self)@,
                    tx@,
                    now as int,
                ),
            },
    {
        match find_index(&self.records, &tx.id) {
            None => Err(StoreError::NotFound),
            Some(i) => {
                let ghost v = self@;
                proof {
                    assert(v[i as int].id == tx@.id);
                    assert(spec_contains_id(v, tx@.id));
                }
                let old_updated = self.records[i].updated_at;
                let new_updated = if now > old_updated {
                    now
                } else {
                    old_updated
                };
                let mut c = clone_tx(&self.records[i]);
                c.raw = clone_bytes(&tx.raw);
                c.status = tx.status;
                c.updated_at = new_updated;
                proof {
                    assert(c@ == updated_view(v[i as int], tx@, now as int));
                }
                self.records[i] = c;
                proof {
                    assert(self@ =~= v.update(i as int, updated_view(v[i as int], tx@, now as int)));
                    let w = v.map(
                        |j: int, r: TxView|
                            if r.id == tx@.id {
                                updated_view(r, tx@, now as int)
                            } else {
                                r
                            },
                    );
                    assert forall|j: int| 0 <= j < v.len() implies self@[j] == w[j] by {
                        if j != i as int {
                            assert(v[j].id != v[i as int].id);
                        }
                    }
                    assert(self@ =~= w);
                    lemma_update_preserves_wf(v, tx@, now as int);
                }
                Ok(())
            },
        }
    }

    /// Returns the single highest-precedence record whose status equals the
    /// target and whose dependency set is empty: ascending priority, then
    /// ascending creation time, ties broken by id. `None` means no eligible
    /// record exists, which is not an error.
    pub fn next_ready(&self, status: TransactionStatus) -> (r: Result<
        Option<Transaction>,
        StoreError,
    >)
        ensures
            match r {
                Ok(o) => opt_view(o) == spec_next(self@, status),
                Err(_) => false,
            },
    {
        let mut best: Option<Transaction> = None;
        let mut i: usize = 0;
        proof {
            assert(self@.take(0) =~= Seq::<TxView>::empty());
        }
        while i < self.records.len()
            invariant
                i <= self@.len(),
                self@.len() == self.records@.len(),
                opt_view(best) == spec_next(self@.take(i as int), status),
            decreases self@.len() - i,
        {
            let t = &self.records[i];
            proof {
                assert(t@ == self@[i as int]);
                assert(self@.take(i as int + 1).drop_last() =~= self@.take(i as int));
                assert(self@.take(i as int + 1).last() == self@[i as int]);
            }
            if is_ready(t, status) {
                let replace = match &best {
                    None => true,
                    Some(b) => rank_before(t, b),
                };
                if replace {
                    best = Some(clone_tx(t));
                }
            }
            i = i + 1;
        }
        proof {
            assert(self@.take(self@.len() as int) =~= self@);
        }
        Ok(best)
    }
}

/// The update of a well-formed store is well-formed, keeps every id and
/// every dependency edge, and never moves any `updated_at` backwards.
pub proof fn lemma_update_preserves_wf(v: Seq<TxView>, t: TxView, now: int)
    requires
        wf(v),
        spec_update(v, t, now) is Ok,
    ensures
        ({
            let w = spec_update(v, t, now)->Ok_0;
            &&& wf(w)
            &&& w.len() == v.len()
            &&& forall|j: int| 0 <= j < v.len() ==> (#[trigger] w[j]).id == v[j].id
            &&& forall|j: int| 0 <= j < v.len() ==> (#[trigger] w[j]).updated_at >= v[j].updated_at
            &&& forall|j: int|
                0 <= j < v.len() ==> (#[trigger] w[j]).dependencies == v[j].dependencies
            &&& forall|j: int| 0 <= j < v.len() ==> (#[trigger] w[j]).created_at == v[j].created_at
        }),
{
    let w = spec_update(v, t, now)->Ok_0;
    assert forall|i: int, k: int|
        0 <= i < w.len() && 0 <= k < w[i].dependencies.len() implies spec_contains_id(
        w,
        #[trigger] w[i].dependencies[k],
    ) && w[i].dependencies[k] != w[i].id by {
        assert(w[i].dependencies == v[i].dependencies);
        assert(spec_contains_id(v, v[i].dependencies[k]) && v[i].dependencies[k] != v[i].id);
        let j = choose|j: int| 0 <= j < v.len() && v[j].id == v[i].dependencies[k];
        assert(w[j].id == w[i].dependencies[k]);
    }
}

fn is_ready(t: &Transaction, status: TransactionStatus) -> (r: bool)
    ensures
        r == spec_ready(t@, status),
{
    let no_deps = match &t.dependencies {
        None => true,
        Some(d) => d.len() == 0,
    };
    t.status == status && no_deps
}

fn rank_before(a: &Transaction, b: &Transaction) -> (r: bool)
    ensures
        r == rank_lt(a@, b@),
{
    if a.priority < b.priority {
        true
    } else if a.priority == b.priority && a.created_at < b.created_at {
        true
    } else if a.priority == b.priority && a.created_at == b.created_at {
        str_lt(a.id.as_str(), b.id.as_str())
    } else {
        false
    }
}

/// The dispatch precedence order is transitive.
pub proof fn lemma_rank_lt_trans(a: TxView, b: TxView, c: TxView)
    requires
        rank_lt(a, b),
        rank_lt(b, c),
    ensures
        rank_lt(a, c),
{
    if a.priority == b.priority && b.priority == c.priority && a.created_at == b.created_at
        && b.created_at == c.created_at {
        crate::order::lemma_char_seq_lt_trans(a.id, b.id, c.id);
    }
}

/// On records with distinct ids the precedence order is total, which is what
/// makes it a total order over a well-formed store.
pub proof fn lemma_rank_lt_total(a: TxView, b: TxView)
    requires
        a.id != b.id,
    ensures
        rank_lt(a, b) || rank_lt(b, a),
{
    if a.priority == b.priority && a.created_at == b.created_at {
        crate::order::lemma_char_seq_lt_total(a.id, b.id);
    }
}

/// The selection contract in full: a selected record is ready and beats
/// every other ready record in the precedence order, and nothing is
/// selected only when nothing is ready.
pub proof fn lemma_spec_next_min(v: Seq<TxView>, status: TransactionStatus)
    ensures
        spec_next(v, status) is None ==> forall|i: int|
            0 <= i < v.len() ==> !spec_ready(#[trigger] v[i], status),
        spec_next(v, status) matches Some(t) ==> spec_ready(t, status) && (exists|i: int|
            0 <= i < v.len() && v[i] == t) && (forall|i: int|
            0 <= i < v.len() && spec_ready(#[trigger] v[i], status) ==> !rank_lt(v[i], t)),
    decreases v.len(),
{
    if v.len() > 0 {
        let u = v.drop_last();
        lemma_spec_next_min(u, status);
        let last = v.last();
        assert(forall|i: int| 0 <= i < u.len() ==> u[i] == v[i]);
        assert(last == v[v.len() - 1]);
        if spec_ready(last, status) {
            match spec_next(u, status) {
                None => {
                    let t = last;
                    assert(spec_next(v, status) == Some(t));
                    assert(v[v.len() - 1] == t);
                    assert forall|i: int|
                        0 <= i < v.len() && spec_ready(#[trigger] v[i], status) implies !rank_lt(
                        v[i],
                        t,
                    ) by {
                        if i < u.len() {
                            assert(!spec_ready(u[i], status));
                        } else {
                            crate::order::lemma_char_seq_lt_irreflexive(t.id);
                        }
                    }
                },
                Some(p) => {
                    let pi = choose|i: int| 0 <= i < u.len() && u[i] == p;
                    assert(v[pi] == p);
                    if rank_lt(last, p) {
                        let t = last;
                        assert(spec_next(v, status) == Some(t));
                        assert(v[v.len() - 1] == t);
                        assert forall|i: int|
                            0 <= i < v.len() && spec_ready(#[trigger] v[i], status) implies !rank_lt(
                            v[i],
                            t,
                        ) by {
                            if i < u.len() {
                                assert(!rank_lt(u[i], p));
                                if rank_lt(v[i], last) {
                                    lemma_rank_lt_trans(v[i], last, p);
                                }
                            } else {
                                crate::order::lemma_char_seq_lt_irreflexive(t.id);
                            }
                        }
                    } else {
                        let t = p;
                        assert(spec_next(v, status) == Some(t));
                        assert forall|i: int|
                            0 <= i < v.len() && spec_ready(#[trigger] v[i], status) implies !rank_lt(
                            v[i],
                            t,
                        ) by {
                            if i < u.len() {
                                assert(!rank_lt(u[i], p));
                            } else {
                                assert(v[i] == last);
                            }
                        }
                    }
                },
            }
        } else {
            assert(spec_next(v, status) == spec_next(u, status));
            match spec_next(u, status) {
                None => {
                    assert forall|i: int| 0 <= i < v.len() implies !spec_ready(
                        #[trigger] v[i],
                        status,
                    ) by {
                        if i < u.len() {
                            assert(!spec_ready(u[i], status));
                        }
                    }
                },
                Some(p) => {
                    let pi = choose|i: int| 0 <= i < u.len() && u[i] == p;
                    assert(v[pi] == p);
                    assert forall|i: int|
                        0 <= i < v.len() && spec_ready(#[trigger] v[i], status) implies !rank_lt(
                        v[i],
                        p,
                    ) by {
                        if i < u.len() {
                            assert(!rank_lt(u[i], p));
                        }
                    }
                },
            }
        }
    }
}

/// Over a well-formed store the selection is strict: the selected record
/// strictly precedes every other ready record, so it is the unique best one.
pub proof fn lemma_next_ready_strict(v: Seq<TxView>, status: TransactionStatus)
    requires
        wf(v),
    ensures
        spec_next(v, status) matches Some(t) ==> forall|i: int|
            0 <= i < v.len() && spec_ready(#[trigger] v[i], status) && v[i] != t ==> rank_lt(
                t,
                v[i],
            ),
{
    lemma_spec_next_min(v, status);
    match spec_next(v, status) {
        None => {
        },
        Some(t) => {
            let ti = choose|j: int| 0 <= j < v.len() && v[j] == t;
            assert forall|i: int|
                0 <= i < v.len() && spec_ready(#[trigger] v[i], status) && v[i] != t implies rank_lt(
                t,
                v[i],
            ) by {
                assert(i != ti);
                assert(v[i].id != v[ti].id);
                lemma_rank_lt_total(v[i], t);
                assert(!rank_lt(v[i], t));
            }
        },
    }
}

/// Dependency satisfaction before dispatch: a record whose dependency set is
/// not empty is never the one selected, regardless of its priority.
pub proof fn lemma_next_ready_excludes_dependent(v: Seq<TxView>, status: TransactionStatus)
    ensures
        spec_next(v, status) matches Some(t) ==> t.dependencies.len() == 0 && t.status == status,
{
    lemma_spec_next_min(v, status);
}

/// Dispatch ordering: between two ready records, the one of strictly
/// smaller priority — or of equal priority and earlier creation — is
/// selected, never the other.
pub proof fn lemma_next_ready_ordering(v: Seq<TxView>, status: TransactionStatus, i: int, j: int)
    requires
        0 <= i < v.len(),
        0 <= j < v.len(),
        spec_ready(v[i], status),
        spec_ready(v[j], status),
        v[i].priority < v[j].priority || (v[i].priority == v[j].priority && v[i].created_at
            < v[j].created_at),
    ensures
        spec_next(v, status) is Some,
        spec_next(v, status) != Some(v[j]),
{
    lemma_spec_next_min(v, status);
    assert(rank_lt(v[i], v[j]));
    if spec_next(v, status) == Some(v[j]) {
        assert(!rank_lt(v[i], v[j]));
    }
}

/// Idempotent read: the selection is a function of the store state alone,
/// so repeated reads without an intervening update return the same record.
pub proof fn lemma_next_ready_idempotent(
    v: Seq<TxView>,
    status: TransactionStatus,
    r1: Option<TxView>,
    r2: Option<TxView>,
)
    requires
        r1 == spec_next(v, status),
        r2 == spec_next(v, status),
    ensures
        r1 == r2,
{
}

impl TransactionStore {
    /// Persists a new status and payload for an existing record, stamping
    /// `updated_at` from the clock. Nothing is assumed of the reading: the
    /// stamp still never moves backwards.
    pub fn update_now(&mut self, tx: &Transaction) -> (r: Result<(), StoreError>)
        requires
            wf(old(self)@),
        ensures
            wf(final(self)@),
            r is Ok <==> spec_contains_id(old(self)@, tx@.id),
            r is Err ==> final(self)@ == old(self)@ && r == Err::<(), StoreError>(
                StoreError::NotFound,
            ),
            exists|now: int|
                (match r {
                    Ok(_) => Ok::<Seq<TxView>, StoreError>(final(self)@),
                    Err(e) => Err(e),
                }) == #[trigger] spec_update(old(self)@, tx@, now),
    {
        let now = now_millis();
        let r = self.update(tx, now);
        proof {
            assert((match r {
                Ok(_) => Ok::<Seq<TxView>, StoreError>(self@),
                Err(e) => Err(e),
            }) == spec_update(old(self)@, tx@, now as int));
        }
        r
    }
}

/// `updated_at` is non-decreasing across successive updates, whatever the
/// clock reads.
pub proof fn lemma_updated_at_monotonic(v: Seq<TxView>, t1: TxView, now1: int, t2: TxView, now2: int)
    requires
        wf(v),
        spec_update(v, t1, now1) is Ok,
        spec_update(spec_update(v, t1, now1)->Ok_0, t2, now2) is Ok,
    ensures
        ({
            let w1 = spec_update(v, t1, now1)->Ok_0;
            let w2 = spec_update(w1, t2, now2)->Ok_0;
            &&& w1.len() == v.len()
            &&& w2.len() == v.len()
            &&& forall|j: int|
                0 <= j < v.len() ==> (#[trigger] w2[j]).updated_at >= w1[j].updated_at
                    && w1[j].updated_at >= v[j].updated_at
        }),
{
    lemma_update_preserves_wf(v, t1, now1);
    lemma_update_preserves_wf(spec_update(v, t1, now1)->Ok_0, t2, now2);
}

} // verus!
