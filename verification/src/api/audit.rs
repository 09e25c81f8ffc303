//! The record of what was done, by whom and how it ended.

use crate::sys::{is_random_id, new_id, now_millis};
use vstd::prelude::*;
use vstd::string::*;

verus! {

/// What was done.
#[derive(Debug, Clone, Copy, PartialEq, Eq, Structural)]
pub enum AuditAction {
    ContainerCreated,
    ContainerDeleted,
    ContainerStarted,
    ContainerStopped,
    ContainerUpdated,
    ContainerSnapshotCreated,
    ContainerSnapshotRestored,
    ContainerSnapshotDeleted,
    ContainerCloned,
    UserCreated,
    UserUpdated,
    UserDeleted,
    UserLogin,
    UserLogout,
    ClusterJoined,
    ClusterLeft,
    ClusterNodeAdded,
    ClusterNodeRemoved,
    StoragePoolCreated,
    StoragePoolDeleted,
    VolumeCreated,
    VolumeDeleted,
    BridgeCreated,
    BridgeDeleted,
    NetworkInterfaceCreated,
    NetworkInterfaceDeleted,
    ConfigurationChanged,
    SystemStarted,
    SystemStopped,
}

/// How it ended.
#[derive(Debug, Clone)]
pub enum AuditResult {
    Success,
    Failure(String),
}

/// One record of the audit log. The time is in milliseconds since the Unix
/// epoch.
#[derive(Debug)]
pub struct AuditLog {
    pub id: u128,
    pub timestamp: i64,
    pub user: Option<String>,
    pub action: AuditAction,
    pub resource_type: String,
    pub resource_id: Option<String>,
    pub result: AuditResult,
    pub ip_address: Option<String>,
    pub correlation_id: Option<u128>,
    pub details: Option<String>,
}

/// A copy of a text that may be missing.
fn copy_text(text: &Option<String>) -> (copy: Option<String>)
    ensures
        copy == *text,
{
    match text {
        Some(t) => Some(t.clone()),
        None => None,
    }
}

impl Clone for AuditLog {
    fn clone(&self) -> (copy: AuditLog)
        ensures
            copy == *self,
    {
        AuditLog {
            id: self.id,
            timestamp: self.timestamp,
            user: copy_text(&self.user),
            action: self.action,
            resource_type: self.resource_type.clone(),
            resource_id: copy_text(&self.resource_id),
            result: match &self.result {
                AuditResult::Success => AuditResult::Success,
                AuditResult::Failure(reason) => AuditResult::Failure(reason.clone()),
            },
            ip_address: copy_text(&self.ip_address),
            correlation_id: self.correlation_id,
            details: copy_text(&self.details),
        }
    }
}

/// Gathers the parts of a record one by one.
#[derive(Debug)]
pub struct AuditLogBuilder {
    pub user: Option<String>,
    pub action: Option<AuditAction>,
    pub resource_type: Option<String>,
    pub resource_id: Option<String>,
    pub result: Option<AuditResult>,
    pub ip_address: Option<String>,
    pub correlation_id: Option<u128>,
    pub details: Option<String>,
}

/// What a builder is missing: the first of action, resource type and
/// result that was not given.
pub open spec fn missing_part(b: AuditLogBuilder) -> Option<Seq<char>> {
    if b.action is None {
        Some("Action is required"@)
    } else if b.resource_type is None {
        Some("Resource type is required"@)
    } else if b.result is None {
        Some("Result is required"@)
    } else {
        None
    }
}

/// The record a complete builder stands for, with the given identifier and
/// time.
pub open spec fn built(b: AuditLogBuilder, id: u128, timestamp: i64) -> AuditLog {
    AuditLog {
        id,
        timestamp,
        user: b.user,
        action: b.action->0,
        resource_type: b.resource_type->0,
        resource_id: b.resource_id,
        result: b.result->0,
        ip_address: b.ip_address,
        correlation_id: b.correlation_id,
        details: b.details,
    }
}

impl AuditLogBuilder {
    /// A builder that holds nothing yet.
    pub fn new() -> (builder: AuditLogBuilder)
        ensures
            builder == (AuditLogBuilder {
                user: None,
                action: None,
                resource_type: None,
                resource_id: None,
                result: None,
                ip_address: None,
                correlation_id: None,
                details: None,
            }),
    {
        AuditLogBuilder {
            user: None,
            action: None,
            resource_type: None,
            resource_id: None,
            result: None,
            ip_address: None,
            correlation_id: None,
            details: None,
        }
    }

    pub fn user(self, user: String) -> (builder: AuditLogBuilder)
        ensures
            builder == (AuditLogBuilder { user: Some(user), ..self }),
    {
        let mut builder = self;
        builder.user = Some(user);
        builder
    }

    pub fn action(self, action: AuditAction) -> (builder: AuditLogBuilder)
        ensures
            builder == (AuditLogBuilder { action: Some(action), ..self }),
    {
        let mut builder = self;
        builder.action = Some(action);
        builder
    }

    pub fn resource_type(self, resource_type: String) -> (builder: AuditLogBuilder)
        ensures
            builder == (AuditLogBuilder { resource_type: Some(resource_type), ..self }),
    {
        let mut builder = self;
        builder.resource_type = Some(resource_type);
        builder
    }

    pub fn resource_id(self, resource_id: String) -> (builder: AuditLogBuilder)
        ensures
            builder == (AuditLogBuilder { resource_id: Some(resource_id), ..self }),
    {
        let mut builder = self;
        builder.resource_id = Some(resource_id);
        builder
    }

    pub fn result(self, result: AuditResult) -> (builder: AuditLogBuilder)
        ensures
            builder == (AuditLogBuilder { result: Some(result), ..self }),
    {
        let mut builder = self;
        builder.result = Some(result);
        builder
    }

    pub fn ip_address(self, ip_address: String) -> (builder: AuditLogBuilder)
        ensures
            builder == (AuditLogBuilder { ip_address: Some(ip_address), ..self }),
    {
        let mut builder = self;
        builder.ip_address = Some(ip_address);
        builder
    }

    pub fn correlation_id(self, correlation_id: u128) -> (builder: AuditLogBuilder)
        ensures
            builder == (AuditLogBuilder { correlation_id: Some(correlation_id), ..self }),
    {
        let mut builder = self;
        builder.correlation_id = Some(correlation_id);
        builder
    }

    pub fn details(self, details: String) -> (builder: AuditLogBuilder)
        ensures
            builder == (AuditLogBuilder { details: Some(details), ..self }),
    {
        let mut builder = self;
        builder.details = Some(details);
        builder
    }

    /// The record, with the given identifier and time; or what is missing.
    pub fn build_with(self, id: u128, timestamp: i64) -> (log: Result<AuditLog, &'static str>)
        ensures
            log is Ok <==> missing_part(self) is None,
            log matches Ok(l) ==> l == built(self, id, timestamp),
            log matches Err(e) ==> Some(e@) == missing_part(self),
    {
        let action = match self.action {
            Some(a) => a,
            None => {
                return Err("Action is required");
            },
        };
        let resource_type = match self.resource_type {
            Some(r) => r,
            None => {
                return Err("Resource type is required");
            },
        };
        let result = match self.result {
            Some(r) => r,
            None => {
                return Err("Result is required");
            },
        };
        Ok(
            AuditLog {
                id,
                timestamp,
                user: self.user,
                action,
                resource_type,
                resource_id: self.resource_id,
                result,
                ip_address: self.ip_address,
                correlation_id: self.correlation_id,
                details: self.details,
            },
        )
    }

    /// The record, with a fresh identifier and the present time; or what
    /// is missing.
    pub fn build(self) -> (log: Result<AuditLog, &'static str>)
        ensures
            log is Ok <==> missing_part(self) is None,
            log matches Ok(l) ==> is_random_id(l.id) && exists|timestamp: i64|
                l == #[trigger] built(self, l.id, timestamp),
            log matches Err(e) ==> Some(e@) == missing_part(self),
    {
        let id = new_id();
        let timestamp = now_millis();
        let log = self.build_with(id, timestamp);
        proof {
            if log is Ok {
                assert(log->Ok_0 == built(self, id, timestamp));
            }
        }
        log
    }
}

/// What to look for in the audit log. A part that is not given lets
/// everything through.
pub struct AuditFilter {
    pub user: Option<String>,
    pub action: Option<AuditAction>,
    pub resource_type: Option<String>,
}

/// Whether the record is one the filter looks for.
pub open spec fn passes(log: AuditLog, filter: AuditFilter) -> bool {
    &&& filter.user matches Some(u) ==> (log.user matches Some(v) && v@ == u@)
    &&& filter.action matches Some(a) ==> log.action == a
    &&& filter.resource_type matches Some(r) ==> log.resource_type@ == r@
}

/// The records that pass the filter, in their order.
pub open spec fn selected(logs: Seq<AuditLog>, filter: AuditFilter) -> Seq<AuditLog>
    decreases logs.len(),
{
    if logs.len() == 0 {
        Seq::empty()
    } else if passes(logs.last(), filter) {
        selected(logs.drop_last(), filter).push(logs.last())
    } else {
        selected(logs.drop_last(), filter)
    }
}

/// Where a record of time `timestamp` goes into records ordered from the
/// latest to the earliest: behind every record that is not earlier.
pub open spec fn place_for(sorted: Seq<AuditLog>, timestamp: i64, from: int) -> int
    decreases sorted.len() - from,
{
    if 0 <= from < sorted.len() && sorted[from].timestamp >= timestamp {
        place_for(sorted, timestamp, from + 1)
    } else {
        from
    }
}

/// The records ordered from the latest to the earliest; records of the
/// same time keep their order.
pub open spec fn latest_first(logs: Seq<AuditLog>) -> Seq<AuditLog>
    decreases logs.len(),
{
    if logs.len() == 0 {
        Seq::empty()
    } else {
        let rest = latest_first(logs.drop_last());
        rest.insert(place_for(rest, logs.last().timestamp, 0), logs.last())
    }
}

/// No record is later than one before it.
pub open spec fn is_latest_first(logs: Seq<AuditLog>) -> bool {
    forall|i: int, j: int| 0 <= i <= j < logs.len() ==> (#[trigger] logs[i]).timestamp >= (#[trigger] logs[j]).timestamp
}

pub proof fn lemma_place_for(sorted: Seq<AuditLog>, timestamp: i64, from: int)
    requires
        0 <= from <= sorted.len(),
    ensures
        from <= place_for(sorted, timestamp, from) <= sorted.len(),
        forall|k: int| from <= k < place_for(sorted, timestamp, from) ==> (#[trigger] sorted[k]).timestamp >= timestamp,
        place_for(sorted, timestamp, from) < sorted.len() ==> sorted[place_for(sorted, timestamp, from)].timestamp
            < timestamp,
    decreases sorted.len() - from,
{
    if from < sorted.len() && sorted[from].timestamp >= timestamp {
        lemma_place_for(sorted, timestamp, from + 1);
    }
}

/// What [`latest_first`] gives: the same number of records, ordered from
/// the latest to the earliest.
pub proof fn lemma_latest_first(logs: Seq<AuditLog>)
    ensures
        latest_first(logs).len() == logs.len(),
        is_latest_first(latest_first(logs)),
        latest_first(logs).to_multiset() == logs.to_multiset(),
    decreases logs.len(),
{
    broadcast use vstd::seq_lib::group_to_multiset_ensures;

    if logs.len() > 0 {
        let rest = latest_first(logs.drop_last());
        let x = logs.last();
        lemma_latest_first(logs.drop_last());
        lemma_place_for(rest, x.timestamp, 0);
        let at = place_for(rest, x.timestamp, 0);
        let out = rest.insert(at, x);
        assert forall|i: int, j: int| 0 <= i <= j < out.len() implies (#[trigger] out[i]).timestamp >= (
        #[trigger] out[j]).timestamp by {
            let a = if i < at {
                i
            } else {
                i - 1
            };
            let b = if j < at {
                j
            } else {
                j - 1
            };
            if i == at {
                if j > at {
                    assert(out[j] == rest[j - 1]);
                    assert(rest[at].timestamp >= rest[j - 1].timestamp);
                }
            } else if j == at {
                assert(out[i] == rest[i]);
            } else {
                assert(out[i] == rest[a] && out[j] == rest[b]);
                assert(rest[a].timestamp >= rest[b].timestamp);
            }
        }
        assert(logs =~= logs.drop_last().push(x));
        assert(out.to_multiset() =~= rest.to_multiset().insert(x)) by {
            vstd::seq_lib::to_multiset_insert(rest, at, x);
        }
        assert(logs.to_multiset() =~= logs.drop_last().to_multiset().insert(x));
    }
}

/// Keeps the latest records of what was done, in memory.
pub struct AuditLogger {
    logs: Vec<AuditLog>,
    max_logs: usize,
}

impl AuditLogger {
    /// The records kept, in the order in which they came.
    pub closed spec fn records(&self) -> Seq<AuditLog> {
        self.logs@
    }

    /// How many records are kept at most.
    pub closed spec fn capacity(&self) -> usize {
        self.max_logs
    }

    /// A logger that keeps at most `max_logs` records and holds none.
    pub fn new(max_logs: usize) -> (logger: AuditLogger)
        ensures
            logger.records() == Seq::<AuditLog>::empty(),
            logger.capacity() == max_logs,
    {
        AuditLogger { logs: Vec::new(), max_logs }
    }

    /// A builder for a record; it holds nothing yet.
    pub fn builder() -> (builder: AuditLogBuilder)
        ensures
            builder == (AuditLogBuilder {
                user: None,
                action: None,
                resource_type: None,
                resource_id: None,
                result: None,
                ip_address: None,
                correlation_id: None,
                details: None,
            }),
    {
        AuditLogBuilder::new()
    }

    /// Keeps `log` as the latest record. Where that makes one record too
    /// many, the earliest is dropped.
    pub fn log_entry(&mut self, log: AuditLog)
        ensures
            final(self).capacity() == old(self).capacity(),
            final(self).records() == if old(self).records().len() + 1 > old(self).capacity() {
                old(self).records().push(log).drop_first()
            } else {
                old(self).records().push(log)
            },
    {
        self.logs.push(log);
        if self.logs.len() > self.max_logs {
            self.logs.remove(0);
            assert(self.logs@ =~= old(self).logs@.push(log).drop_first());
        }
    }

    /// How many records are kept.
    pub fn count(&self) -> (count: usize)
        ensures
            count == self.records().len(),
    {
        self.logs.len()
    }

    /// Copies of the records that pass the filter, from the latest to the
    /// earliest, at most `limit` of them where a limit is given.
    pub fn get_logs(
        &self,
        user: Option<String>,
        action: Option<AuditAction>,
        resource_type: Option<String>,
        limit: Option<usize>,
    ) -> (found: Vec<AuditLog>)
        ensures
            found@ == match limit {
                Some(n) => if n < latest_first(selected(self.records(), AuditFilter { user, action, resource_type })).len() {
                    latest_first(selected(self.records(), AuditFilter { user, action, resource_type })).take(
                        n as int,
                    )
                } else {
                    latest_first(selected(self.records(), AuditFilter { user, action, resource_type }))
                },
                None => latest_first(selected(self.records(), AuditFilter { user, action, resource_type })),
            },
    {
        let filter = AuditFilter { user, action, resource_type };
        let mut found: Vec<AuditLog> = Vec::new();
        let mut i: usize = 0;
        assert(self.logs@.take(0) =~= Seq::<AuditLog>::empty());
        while i < self.logs.len()
            invariant
                i <= self.logs.len(),
                found@ == latest_first(selected(self.logs@.take(i as int), filter)),
            decreases self.logs.len() - i,
        {
            let log = &self.logs[i];
            proof {
                assert(self.logs@.take(i + 1).drop_last() =~= self.logs@.take(i as int));
                assert(self.logs@.take(i + 1).last() == *log);
            }
            if log_passes(log, &filter) {
                let ghost chosen = selected(self.logs@.take(i as int), filter);
                proof {
                    assert(chosen.push(*log).drop_last() =~= chosen);
                }
                let mut at: usize = 0;
                while at < found.len() && found[at].timestamp >= log.timestamp
                    invariant
                        at <= found.len(),
                        place_for(found@, log.timestamp, 0) == place_for(found@, log.timestamp, at as int),
                    decreases found.len() - at,
                {
                    at = at + 1;
                }
                found.insert(at, log.clone());
            }
            i = i + 1;
        }
        assert(self.logs@.take(i as int) =~= self.logs@);
        match limit {
            Some(n) => {
                if n < found.len() {
                    found.truncate(n);
                }
            },
            None => {},
        }
        found
    }
}

/// Whether the record is one the filter looks for.
fn log_passes(log: &AuditLog, filter: &AuditFilter) -> (yes: bool)
    ensures
        yes == passes(*log, *filter),
{
    let user_ok = match &filter.user {
        Some(u) => match &log.user {
            Some(v) => crate::text::equal(v.as_str(), u.as_str()),
            None => false,
        },
        None => true,
    };
    let action_ok = match &filter.action {
        Some(a) => log.action == *a,
        None => true,
    };
    let type_ok = match &filter.resource_type {
        Some(r) => crate::text::equal(log.resource_type.as_str(), r.as_str()),
        None => true,
    };
    user_ok && action_ok && type_ok
}

impl Default for AuditLogger {
    /// A logger that keeps the latest ten thousand records.
    fn default() -> (logger: AuditLogger)
        ensures
            logger.records() == Seq::<AuditLog>::empty(),
            logger.capacity() == 10000,
    {
        AuditLogger::new(10000)
    }
}

} // verus!
