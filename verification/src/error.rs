//! The daemon's refusals: the wire taxonomy a client sees, and what the operator sees.

use crate::ids::ObjectId;
use crate::text::{
    all_decimal, all_shown, decimal, decimals, listed, one_field, push_decimal, push_listed,
    push_one_field, push_signed, push_two_fields, show, show_all, shown, signed_decimal, two_fields,
};
use vstd::prelude::*;
use vstd::string::StringExecFns;

verus! {

/// A refusal a client sees.
#[derive(Clone, Debug, PartialEq, Eq)]
pub enum Refusal {
    NotFound,
    AlreadyExists { existing: ObjectId },
    NoSpace,
    InvalidName,
    Destroying,
    Archived,
    PolicyMismatch,
    BaseUnavailable { path: String, errno: i32 },
    BudgetExceeded { available: u64 },
    BadRequest { reason: String },
    StaleLease { current: u64 },
    LeaseHeld { epoch: u64 },
    DuplicateRequest,
    Forbidden { verb: &'static str },
    Unsupported { feature: &'static str },
    LandingConflict { entries: Vec<String> },
    LandingLeaseHeld { holder: u64 },
    GrantMismatch,
    GrantInvalid,
    TargetUnavailable { reason: String },
}

impl Refusal {
    /// The refusal's name.
    pub open spec fn named(&self) -> Seq<char> {
        match *self {
            Refusal::NotFound => "NotFound"@,
            Refusal::AlreadyExists { .. } => "AlreadyExists"@,
            Refusal::NoSpace => "NoSpace"@,
            Refusal::InvalidName => "InvalidName"@,
            Refusal::Destroying => "Destroying"@,
            Refusal::Archived => "Archived"@,
            Refusal::PolicyMismatch => "PolicyMismatch"@,
            Refusal::BaseUnavailable { .. } => "BaseUnavailable"@,
            Refusal::BudgetExceeded { .. } => "BudgetExceeded"@,
            Refusal::BadRequest { .. } => "BadRequest"@,
            Refusal::StaleLease { .. } => "StaleLease"@,
            Refusal::LeaseHeld { .. } => "LeaseHeld"@,
            Refusal::DuplicateRequest => "DuplicateRequest"@,
            Refusal::Forbidden { .. } => "Forbidden"@,
            Refusal::Unsupported { .. } => "Unsupported"@,
            Refusal::LandingConflict { .. } => "LandingConflict"@,
            Refusal::LandingLeaseHeld { .. } => "LandingLeaseHeld"@,
            Refusal::GrantMismatch => "GrantMismatch"@,
            Refusal::GrantInvalid => "GrantInvalid"@,
            Refusal::TargetUnavailable { .. } => "TargetUnavailable"@,
        }
    }

    /// The refusal's name, without what it says besides.
    pub fn name(&self) -> (name: &'static str)
        ensures
            name@ == self.named(),
    {
        match self {
            Refusal::NotFound => "NotFound",
            Refusal::AlreadyExists { .. } => "AlreadyExists",
            Refusal::NoSpace => "NoSpace",
            Refusal::InvalidName => "InvalidName",
            Refusal::Destroying => "Destroying",
            Refusal::Archived => "Archived",
            Refusal::PolicyMismatch => "PolicyMismatch",
            Refusal::BaseUnavailable { .. } => "BaseUnavailable",
            Refusal::BudgetExceeded { .. } => "BudgetExceeded",
            Refusal::BadRequest { .. } => "BadRequest",
            Refusal::StaleLease { .. } => "StaleLease",
            Refusal::LeaseHeld { .. } => "LeaseHeld",
            Refusal::DuplicateRequest => "DuplicateRequest",
            Refusal::Forbidden { .. } => "Forbidden",
            Refusal::Unsupported { .. } => "Unsupported",
            Refusal::LandingConflict { .. } => "LandingConflict",
            Refusal::LandingLeaseHeld { .. } => "LandingLeaseHeld",
            Refusal::GrantMismatch => "GrantMismatch",
            Refusal::GrantInvalid => "GrantInvalid",
            Refusal::TargetUnavailable { .. } => "TargetUnavailable",
        }
    }

    /// The refusal in full, as the operator reads it: its name, and what it says besides, each field
    /// under its own name.
    pub open spec fn text(&self) -> Seq<char> {
        match *self {
            Refusal::AlreadyExists { existing } => one_field(
                self.named(),
                "existing"@,
                "VolumeId { bytes: ["@ + listed(all_decimal(existing.identity())) + "] }"@,
            ),
            Refusal::BaseUnavailable { path, errno } => two_fields(
                self.named(),
                ("path"@, shown(path@)),
                ("errno"@, signed_decimal(errno as int)),
            ),
            Refusal::BudgetExceeded { available } => one_field(
                self.named(),
                "available"@,
                decimal(available as nat),
            ),
            Refusal::BadRequest { reason } => one_field(
                self.named(),
                "reason"@,
                shown(reason@),
            ),
            Refusal::StaleLease { current } => one_field(
                self.named(),
                "current"@,
                decimal(current as nat),
            ),
            Refusal::LeaseHeld { epoch } => one_field(
                self.named(),
                "epoch"@,
                decimal(epoch as nat),
            ),
            Refusal::Forbidden { verb } => one_field(self.named(), "verb"@, shown(verb@)),
            Refusal::Unsupported { feature } => one_field(
                self.named(),
                "feature"@,
                shown(feature@),
            ),
            Refusal::LandingConflict { entries } => one_field(
                self.named(),
                "entries"@,
                "["@ + listed(all_shown(entries@)) + "]"@,
            ),
            Refusal::LandingLeaseHeld { holder } => one_field(
                self.named(),
                "holder"@,
                decimal(holder as nat),
            ),
            Refusal::TargetUnavailable { reason } => one_field(
                self.named(),
                "reason"@,
                shown(reason@),
            ),
            _ => self.named(),
        }
    }

    /// The refusal in full, as the operator reads it.
    pub fn message(&self) -> (message: String)
        ensures
            message@ == self.text(),
    {
        let mut value = String::new();
        let field: &'static str = match self {
            Refusal::AlreadyExists { existing } => {
                value.append("VolumeId { bytes: [");
                push_listed(&mut value, &decimals(&existing.bytes()));
                value.append("] }");
                assert(value@ =~= "VolumeId { bytes: ["@ + listed(
                    all_decimal(existing.identity()),
                ) + "] }"@);
                "existing"
            },
            Refusal::BaseUnavailable { path, errno } => {
                let shown_path = show(path.as_str());
                push_signed(&mut value, *errno);
                assert(value@ =~= signed_decimal(*errno as int));
                let mut message = String::new();
                push_two_fields(
                    &mut message,
                    self.name(),
                    ("path", shown_path.as_str()),
                    ("errno", value.as_str()),
                );
                assert(message@ =~= self.text());
                return message;
            },
            Refusal::BudgetExceeded { available } => {
                push_decimal(&mut value, *available);
                assert(value@ =~= decimal(*available as nat));
                "available"
            },
            Refusal::BadRequest { reason } => {
                value = show(reason.as_str());
                "reason"
            },
            Refusal::StaleLease { current } => {
                push_decimal(&mut value, *current);
                assert(value@ =~= decimal(*current as nat));
                "current"
            },
            Refusal::LeaseHeld { epoch } => {
                push_decimal(&mut value, *epoch);
                assert(value@ =~= decimal(*epoch as nat));
                "epoch"
            },
            Refusal::Forbidden { verb } => {
                value = show(verb);
                "verb"
            },
            Refusal::Unsupported { feature } => {
                value = show(feature);
                "feature"
            },
            Refusal::LandingConflict { entries } => {
                value.append("[");
                push_listed(&mut value, &show_all(entries));
                value.append("]");
                assert(value@ =~= "["@ + listed(all_shown(entries@)) + "]"@);
                "entries"
            },
            Refusal::LandingLeaseHeld { holder } => {
                push_decimal(&mut value, *holder);
                assert(value@ =~= decimal(*holder as nat));
                "holder"
            },
            Refusal::TargetUnavailable { reason } => {
                value = show(reason.as_str());
                "reason"
            },
            _ => {
                let mut message = String::new();
                message.append(self.name());
                assert(message@ =~= self.named());
                return message;
            },
        };
        let mut message = String::new();
        push_one_field(&mut message, self.name(), field, value.as_str());
        assert(message@ =~= self.text());
        message
    }
}

/// What the volume core refuses.
#[derive(Debug, PartialEq, Eq)]
pub enum VfsError {
    NotFound,
    AlreadyExists,
    NoSpace,
    InvalidName,
    Destroying,
    Archived,
    PolicyMismatch,
    BaseUnavailable(i32),
    /// The memory budget is exceeded.
    BudgetExceeded { available: u64 },
    /// Any other refusal, in its own words.
    Other(String),
}

/// What the database refuses.
#[derive(Debug, PartialEq, Eq)]
pub enum DbError {
    NotFound,
    AlreadyExists { existing: ObjectId },
    StaleLease { current: u64 },
    LeaseHeld { epoch: u64 },
    StaleCompletion,
    /// A table is full.
    Capacity { table: &'static str },
    /// Any other refusal, in its own words.
    Other(String),
}

/// Whether a wire refusal is the one a volume-core refusal is answered with.
pub open spec fn answers_vfs(error: VfsError, refusal: Refusal) -> bool {
    match error {
        VfsError::NotFound => refusal is NotFound,
        VfsError::AlreadyExists => refusal == (Refusal::AlreadyExists { existing: ObjectId(0) }),
        VfsError::NoSpace => refusal is NoSpace,
        VfsError::InvalidName => refusal is InvalidName,
        VfsError::Destroying => refusal is Destroying,
        VfsError::Archived => refusal is Archived,
        VfsError::PolicyMismatch => refusal is PolicyMismatch,
        VfsError::BaseUnavailable(errno) => refusal matches Refusal::BaseUnavailable {
            path,
            errno: code,
        } && path@ == Seq::<char>::empty() && code == errno,
        VfsError::BudgetExceeded { available } => refusal == (Refusal::BudgetExceeded {
            available,
        }),
        VfsError::Other(words) => refusal matches Refusal::BadRequest { reason } && reason@
            == words@,
    }
}

/// The wire refusal for a volume-core refusal.
pub fn refusal_of_vfs(error: &VfsError) -> (refusal: Refusal)
    ensures
        answers_vfs(*error, refusal),
{
    match error {
        VfsError::NotFound => Refusal::NotFound,
        VfsError::AlreadyExists => Refusal::AlreadyExists { existing: ObjectId(0) },
        VfsError::NoSpace => Refusal::NoSpace,
        VfsError::InvalidName => Refusal::InvalidName,
        VfsError::Destroying => Refusal::Destroying,
        VfsError::Archived => Refusal::Archived,
        VfsError::PolicyMismatch => Refusal::PolicyMismatch,
        VfsError::BaseUnavailable(errno) => Refusal::BaseUnavailable {
            path: String::new(),
            errno: *errno,
        },
        VfsError::BudgetExceeded { available } => Refusal::BudgetExceeded {
            available: *available,
        },
        VfsError::Other(words) => Refusal::BadRequest { reason: words.clone() },
    }
}

/// Whether a wire refusal is the one a database refusal is answered with.
pub open spec fn answers_db(error: DbError, refusal: Refusal) -> bool {
    match error {
        DbError::NotFound => refusal is NotFound,
        DbError::AlreadyExists { existing } => refusal == (Refusal::AlreadyExists { existing }),
        DbError::StaleLease { current } => refusal == (Refusal::StaleLease { current }),
        DbError::LeaseHeld { epoch } => refusal == (Refusal::LeaseHeld { epoch }),
        DbError::StaleCompletion => refusal is DuplicateRequest,
        DbError::Capacity { table } => refusal matches Refusal::BadRequest { reason } && reason@
            == table@ + " at capacity"@,
        DbError::Other(words) => refusal matches Refusal::BadRequest { reason } && reason@
            == words@,
    }
}

/// The wire refusal for a database refusal.
pub fn refusal_of_db(error: &DbError) -> (refusal: Refusal)
    ensures
        answers_db(*error, refusal),
{
    match error {
        DbError::NotFound => Refusal::NotFound,
        DbError::AlreadyExists { existing } => Refusal::AlreadyExists { existing: *existing },
        DbError::StaleLease { current } => Refusal::StaleLease { current: *current },
        DbError::LeaseHeld { epoch } => Refusal::LeaseHeld { epoch: *epoch },
        DbError::StaleCompletion => Refusal::DuplicateRequest,
        DbError::Capacity { table } => {
            let mut reason = String::new();
            reason.append(table);
            reason.append(" at capacity");
            assert(reason@ =~= table@ + " at capacity"@);
            Refusal::BadRequest { reason }
        },
        DbError::Other(words) => Refusal::BadRequest { reason: words.clone() },
    }
}

/// A typed refusal from the daemon. What another part of it refused comes in that part's own words.
#[derive(Clone, Debug, PartialEq, Eq)]
pub enum ServerError {
    Runtime(String),
    Db(String),
    Ipc(String),
    Anchor(String),
    Vfs(String),
    Memory(String),
    /// A refusal a client sees.
    Refused(Refusal),
    /// The daemon is not on a shard thread where it expected one.
    NotOnShard,
    /// Some chokepoint spans have not registered their emitter: the daemon does not serve with a
    /// span source silently missing.
    ChokepointsUnregistered { missing: Vec<&'static str> },
}

/// Names one after the other, with a comma between.
pub open spec fn joined_names(names: Seq<&'static str>) -> Seq<char>
    decreases names.len(),
{
    if names.len() == 0 {
        Seq::empty()
    } else if names.len() == 1 {
        names[0]@
    } else {
        joined_names(names.drop_last()) + ", "@ + names.last()@
    }
}

/// Appends names with a comma between.
pub fn push_names(out: &mut String, names: &Vec<&'static str>)
    ensures
        final(out)@ == old(out)@ + joined_names(names@),
{
    let mut i: usize = 0;
    assert(out@ =~= old(out)@ + joined_names(names@.take(0)));
    while i < names.len()
        invariant
            i <= names@.len(),
            out@ == old(out)@ + joined_names(names@.take(i as int)),
        decreases names@.len() - i,
    {
        proof {
            assert(names@.take(i + 1).drop_last() =~= names@.take(i as int));
            assert(names@.take(i + 1).last() == names@[i as int]);
        }
        if i > 0 {
            out.append(", ");
        }
        out.append(names[i]);
        i += 1;
        assert(out@ =~= old(out)@ + joined_names(names@.take(i as int)));
    }
    assert(names@.take(i as int) =~= names@);
}

impl ServerError {
    /// The refusal's text; what a client was refused is told in full.
    pub open spec fn text(&self) -> Seq<char> {
        match *self {
            ServerError::Runtime(words) => "runtime: "@ + words@,
            ServerError::Db(words) => "database: "@ + words@,
            ServerError::Ipc(words) => "ipc: "@ + words@,
            ServerError::Anchor(words) => "segment: "@ + words@,
            ServerError::Vfs(words) => "volume: "@ + words@,
            ServerError::Memory(words) => "memory: "@ + words@,
            ServerError::Refused(refusal) => "refused: "@ + refusal.text(),
            ServerError::NotOnShard => "not on a shard thread"@,
            ServerError::ChokepointsUnregistered { missing } =>
                "observability incomplete: chokepoint spans not registered: "@ + joined_names(
                missing@,
            ),
        }
    }

    /// The refusal's text.
    pub fn message(&self) -> (message: String)
        ensures
            message@ == self.text(),
    {
        let mut message = String::new();
        match self {
            ServerError::Runtime(words) => {
                message.append("runtime: ");
                message.append(words.as_str());
            },
            ServerError::Db(words) => {
                message.append("database: ");
                message.append(words.as_str());
            },
            ServerError::Ipc(words) => {
                message.append("ipc: ");
                message.append(words.as_str());
            },
            ServerError::Anchor(words) => {
                message.append("segment: ");
                message.append(words.as_str());
            },
            ServerError::Vfs(words) => {
                message.append("volume: ");
                message.append(words.as_str());
            },
            ServerError::Memory(words) => {
                message.append("memory: ");
                message.append(words.as_str());
            },
            ServerError::Refused(refusal) => {
                message.append("refused: ");
                let told = refusal.message();
                message.append(told.as_str());
            },
            ServerError::NotOnShard => {
                message.append("not on a shard thread");
            },
            ServerError::ChokepointsUnregistered { missing } => {
                message.append("observability incomplete: chokepoint spans not registered: ");
                push_names(&mut message, missing);
            },
        }
        assert(message@ =~= self.text());
        message
    }
}

/// A volume's error is answered by the refusal it is, with what it carries; one that has no refusal of
/// its own is a bad request in its own words.
pub proof fn a_volumes_error_keeps_its_meaning(error: VfsError, refusal: Refusal)
    requires
        answers_vfs(error, refusal),
    ensures
        refusal is NotFound <==> error is NotFound,
        refusal is AlreadyExists <==> error is AlreadyExists,
        refusal is NoSpace <==> error is NoSpace,
        refusal is InvalidName <==> error is InvalidName,
        refusal is Destroying <==> error is Destroying,
        refusal is Archived <==> error is Archived,
        refusal is PolicyMismatch <==> error is PolicyMismatch,
        refusal is BaseUnavailable <==> error is BaseUnavailable,
        refusal is BudgetExceeded <==> error is BudgetExceeded,
        refusal is BadRequest <==> error is Other,
        error matches VfsError::BaseUnavailable(code) ==> (refusal matches Refusal::BaseUnavailable {
            path,
            errno,
        } && errno == code && path@.len() == 0),
        error matches VfsError::BudgetExceeded { available: left } ==> (refusal
            matches Refusal::BudgetExceeded { available } && available == left),
        error matches VfsError::Other(words) ==> (refusal matches Refusal::BadRequest { reason }
            && reason@ == words@),
{
}

/// A table's error is answered by the refusal it is, with what it carries; a full table is named, and
/// a completion that came too late is a duplicate.
pub proof fn a_tables_error_keeps_its_meaning(error: DbError, refusal: Refusal)
    requires
        answers_db(error, refusal),
    ensures
        refusal is NotFound <==> error is NotFound,
        refusal is AlreadyExists <==> error is AlreadyExists,
        refusal is StaleLease <==> error is StaleLease,
        refusal is LeaseHeld <==> error is LeaseHeld,
        refusal is DuplicateRequest <==> error is StaleCompletion,
        refusal is BadRequest <==> error is Other || error is Capacity,
        error matches DbError::AlreadyExists { existing: object } ==> (refusal
            matches Refusal::AlreadyExists { existing } && existing == object),
        error matches DbError::StaleLease { current: epoch } ==> (refusal
            matches Refusal::StaleLease { current } && current == epoch),
        error matches DbError::LeaseHeld { epoch: held } ==> (refusal matches Refusal::LeaseHeld {
            epoch,
        } && epoch == held),
        error matches DbError::Other(words) ==> (refusal matches Refusal::BadRequest { reason }
            && reason@ == words@),
        error matches DbError::Capacity { table } ==> (refusal matches Refusal::BadRequest { reason }
            && table@.is_prefix_of(reason@) && reason@.len() == table@.len() + 12),
{
    reveal_strlit(" at capacity");
}

/// A server's error says where it came from and then what was said there, word for word.
pub proof fn an_error_says_where_it_came_from(words: String)
    ensures
        ServerError::Runtime(words).text() == "runtime: "@ + words@,
        ServerError::Db(words).text() == "database: "@ + words@,
        ServerError::Ipc(words).text() == "ipc: "@ + words@,
        ServerError::Anchor(words).text() == "segment: "@ + words@,
        ServerError::Vfs(words).text() == "volume: "@ + words@,
        ServerError::Memory(words).text() == "memory: "@ + words@,
{
}

/// A refused request is answered with the name of its refusal, and one without particulars with the
/// name alone.
pub proof fn a_refusal_is_told_by_its_name(refusal: Refusal)
    ensures
        refusal.named().is_prefix_of(refusal.text()),
        ServerError::Refused(refusal).text() == "refused: "@ + refusal.text(),
        refusal is NotFound || refusal is NoSpace || refusal is InvalidName || refusal is Destroying
            || refusal is Archived || refusal is PolicyMismatch || refusal is DuplicateRequest
            || refusal is GrantMismatch || refusal is GrantInvalid ==> refusal.text()
            == refusal.named(),
        refusal matches Refusal::StaleLease { current } ==> refusal.text() == "StaleLease { current: "@
            + decimal(current as nat) + " }"@,
        refusal matches Refusal::LeaseHeld { epoch } ==> refusal.text() == "LeaseHeld { epoch: "@
            + decimal(epoch as nat) + " }"@,
        refusal matches Refusal::BudgetExceeded { available } ==> refusal.text()
            == "BudgetExceeded { available: "@ + decimal(available as nat) + " }"@,
        refusal matches Refusal::LandingLeaseHeld { holder } ==> refusal.text()
            == "LandingLeaseHeld { holder: "@ + decimal(holder as nat) + " }"@,
        refusal matches Refusal::BadRequest { reason } ==> refusal.text() == "BadRequest { reason: "@
            + shown(reason@) + " }"@,
        refusal matches Refusal::TargetUnavailable { reason } ==> refusal.text()
            == "TargetUnavailable { reason: "@ + shown(reason@) + " }"@,
        refusal matches Refusal::Forbidden { verb } ==> refusal.text() == "Forbidden { verb: "@
            + shown(verb@) + " }"@,
        refusal matches Refusal::Unsupported { feature } ==> refusal.text()
            == "Unsupported { feature: "@ + shown(feature@) + " }"@,
{
    reveal_strlit(" { ");
    reveal_strlit(": ");
    reveal_strlit(" }");
    reveal_strlit("StaleLease");
    reveal_strlit("current");
    reveal_strlit("StaleLease { current: ");
    reveal_strlit("LeaseHeld");
    reveal_strlit("epoch");
    reveal_strlit("LeaseHeld { epoch: ");
    reveal_strlit("BudgetExceeded");
    reveal_strlit("available");
    reveal_strlit("BudgetExceeded { available: ");
    reveal_strlit("LandingLeaseHeld");
    reveal_strlit("holder");
    reveal_strlit("LandingLeaseHeld { holder: ");
    reveal_strlit("BadRequest");
    reveal_strlit("reason");
    reveal_strlit("BadRequest { reason: ");
    reveal_strlit("TargetUnavailable");
    reveal_strlit("TargetUnavailable { reason: ");
    reveal_strlit("Forbidden");
    reveal_strlit("verb");
    reveal_strlit("Forbidden { verb: ");
    reveal_strlit("Unsupported");
    reveal_strlit("feature");
    reveal_strlit("Unsupported { feature: ");
}

} // verus!
