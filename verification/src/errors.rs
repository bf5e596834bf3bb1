//! The errors that graph operations report.
use vstd::prelude::*;
use vstd::string::*;
use crate::decimal::{decimal_digits, usize_text};
use crate::model::{Connection, ConnectionView};

verus! {

/// Why a graph operation was refused. Errors that wrap another error keep it
/// as `reason`, so a failure can be traced to its cause.
#[derive(Debug)]
#[allow(inconsistent_fields)]
pub enum GraphError {
    SaveFailed { reason: Box<GraphError> },
    SlotMalformed {
        template_name: String,
        slot_name: String,
        min: usize,
        max: Option<usize>,
        actual: usize,
    },
    GraphLockFailed,
    /// Setting up the canvas failed; holds the description of the failure.
    SetupFailed(String),
    ConfigurationError(String, Box<GraphError>),
    NodeNotFound(String),
    SlotNotFound { node_id: String, slot_id: String },
    TemplateNotFound(String),
    ConnectionCreationFailed {
        node_template_name: String,
        slot_template_name: String,
        reason: Box<GraphError>,
    },
    InvalidConnection { connection: Connection, reason: String },
    ValidationFailed(String),
    LockFailed(String),
    SomeSlotDeletionsFailed { failures: Vec<GraphError> },
    SomeConnectionDeletionsFailed { failures: Vec<GraphError> },
    NodeCreationFailed {
        node_template_id: String,
        node_template_name: String,
        reason: Box<GraphError>,
    },
    NodeDeletionFailed { node_id: String, node_template_name: String, reason: Box<GraphError> },
    SlotDeletionFailed { slot_name: String, reason: Box<GraphError> },
    ConnectionDeletionFailed { connection: Connection, reason: Box<GraphError> },
    ConnectionLocked,
    SlotTemplateLocked { name: String },
    SlotInstanceLocked,
    NodeTemplateLocked { name: String },
    NodeInstanceLocked,
    ListOfErrors(Vec<GraphError>),
    Other(String),
}

pub type GraphResult<T> = Result<T, GraphError>;

/// `e` is `Other` with message `msg`.
pub open spec fn is_other(e: GraphError, msg: Seq<char>) -> bool {
    e matches GraphError::Other(m) && m@ == msg
}

/// An `Other` error carrying `msg`.
pub fn other(msg: &str) -> (e: GraphError)
    ensures
        is_other(e, msg@),
{
    GraphError::Other(String::from_str(msg))
}

// ----- the text an error is shown with ----------------------------------------

/// What `{:#?}` writes for an error: the pretty-printed form of its derived
/// `Debug` impl.
pub uninterp spec fn error_debug(e: GraphError) -> Seq<char>;

/// What `{:?}` writes for a connection: the form of its derived `Debug` impl.
pub uninterp spec fn connection_debug(c: ConnectionView) -> Seq<char>;

/// What `{:#?}` writes for an optional connection count: `None`, or the
/// count in decimal inside `Some(` and `,`, each on a line of its own and
/// the count indented by four spaces.
pub open spec fn count_debug(m: Option<usize>) -> Seq<char> {
    match m {
        None => "None"@,
        Some(c) => "Some(\n    "@ + decimal_digits(c as nat) + ",\n)"@,
    }
}

/// Formats an error with `format!("{:#?}", ..)`. The contract claims only
/// that the text is a function of the error; the layout of the derived
/// `Debug` output is left unsaid.
#[verifier::external_body]
fn pretty_error_debug(e: &GraphError) -> (r: String)
    ensures
        r@ == error_debug(*e),
{
    format!("{:#?}", e)
}

/// Formats a connection with `format!("{:?}", ..)`. The contract claims only
/// that the text is a function of the connection's fields; the layout of
/// the derived `Debug` output is left unsaid.
#[verifier::external_body]
fn connection_debug_text(c: &Connection) -> (r: String)
    ensures
        r@ == connection_debug(c@),
{
    format!("{:?}", c)
}

/// An optional count as `{:#?}` writes it.
fn count_debug_text(m: Option<usize>) -> (r: String)
    ensures
        r@ == count_debug(m),
{
    match m {
        None => String::from_str("None"),
        Some(c) => {
            let mut s = String::from_str("Some(\n    ");
            let digits = usize_text(c);
            s.append(digits.as_str());
            s.append(",\n)");
            s
        },
    }
}

/// The texts of `es`, one after the other.
pub open spec fn texts_of(es: Seq<GraphError>) -> Seq<char>
    decreases es,
{
    if es.len() == 0 {
        Seq::empty()
    } else {
        texts_of(es.drop_last()) + error_text(es.last())
    }
}

/// The pretty-printed debug forms of `es`, one after the other.
pub open spec fn debug_texts_of(es: Seq<GraphError>) -> Seq<char>
    decreases es.len(),
{
    if es.len() == 0 {
        Seq::empty()
    } else {
        debug_texts_of(es.drop_last()) + error_debug(es.last())
    }
}

/// The text an error is shown with. An error that wraps another shows the
/// wrapped one's text or its pretty-printed debug form; a list shows its
/// entries one after the other.
pub open spec fn error_text(e: GraphError) -> Seq<char>
    decreases e,
{
    match e {
        GraphError::ConfigurationError(msg, inner) => "Configuration error: "@ + msg@ + "; "@ + error_text(*inner),
        GraphError::SetupFailed(description) => "Setup failed: "@ + description@,
        GraphError::NodeNotFound(id) => "Node not found: "@ + id@,
        GraphError::SlotNotFound { node_id, slot_id } => "Slot "@ + slot_id@ + " not found on node "@ + node_id@,
        GraphError::TemplateNotFound(id) => "Template not found: "@ + id@,
        GraphError::ConnectionCreationFailed { node_template_name, slot_template_name, reason } =>
            "Connection Creation Failed. From node "@ + node_template_name@ + ", slot "@ + slot_template_name@
                + "; Reason: "@ + error_debug(*reason),
        GraphError::InvalidConnection { connection, reason } => "Invalid connection from "@ + connection.host_node_id@
            + ":"@ + connection.host_slot_template_id@ + " to "@ + connection.target_node_id@ + ":"@
            + connection.target_slot_template_id@ + " - "@ + reason@,
        GraphError::ValidationFailed(msg) => "Validation failed: "@ + msg@,
        GraphError::LockFailed(msg) => "Lock acquisition failed: "@ + msg@,
        GraphError::NodeCreationFailed { node_template_id, node_template_name, reason } => "Node creation failed: "@
            + node_template_id@ + "\n Template name: "@ + node_template_name@ + "\n Reason: "@ + error_debug(*reason),
        GraphError::NodeDeletionFailed { node_id, node_template_name, reason } => "Node deletion failed: "@ + node_id@
            + "\n Template name: "@ + node_template_name@ + "\n Reason: "@ + error_debug(*reason),
        GraphError::SlotDeletionFailed { slot_name, reason } => "Slot deletion failed: "@ + slot_name@ + "\n Reason: "@
            + error_debug(*reason),
        GraphError::ConnectionDeletionFailed { connection, reason } => "Connection deletion failed; "@
            + connection_debug(connection@) + "; "@ + error_text(*reason),
        GraphError::ConnectionLocked => "Connection is locked and cannot be deleted"@,
        GraphError::SlotTemplateLocked { name } => "Slot Template is locked and cannot be modified: "@ + name@,
        GraphError::SlotInstanceLocked => "Node Instance is locked and cannot be modified"@,
        GraphError::NodeTemplateLocked { name } => "Node Template is locked and cannot be modified: "@ + name@,
        GraphError::NodeInstanceLocked => "Node Instance is locked and cannot be modified"@,
        GraphError::SomeConnectionDeletionsFailed { failures } =>
            "Some connections in the requested action were not deleted"@ + texts_of(failures@),
        GraphError::SomeSlotDeletionsFailed { failures } => "Some slots in the requested action were not cleared"@
            + texts_of(failures@),
        GraphError::SaveFailed { reason } => "Save action failed. \nReason: "@ + error_debug(*reason),
        GraphError::GraphLockFailed => "Could not obtain graph lock"@,
        GraphError::SlotMalformed { template_name, slot_name, min, max, actual } =>
            "Slot is not well-formed. \nTemplate Name: "@ + template_name@ + ", Slot Name: "@ + slot_name@
                + ", Minimum Connections: "@ + decimal_digits(min as nat) + ", Maximum Connections: "@ + count_debug(max)
                + ", Current Number of Instances: "@ + decimal_digits(actual as nat),
        GraphError::ListOfErrors(errors) => debug_texts_of(errors@),
        GraphError::Other(msg) => "Other error: "@ + msg@,
    }
}

/// `head` followed by the texts of `failures`.
fn texts_after(head: &str, failures: &Vec<GraphError>) -> (r: String)
    ensures
        r@ == head@ + texts_of(failures@),
    decreases failures,
{
    let mut s = String::from_str(head);
    let n = failures.len();
    let mut i: usize = 0;
    while i < n
        invariant
            n == failures@.len(),
            i <= n,
            s@ == head@ + texts_of(failures@.take(i as int)),
        decreases n - i,
    {
        proof {
            assert(decreases_to!(failures => failures@));
            assert(decreases_to!(failures@ => failures@[i as int]));
        }
        let t = failures[i].to_string();
        s.append(t.as_str());
        proof {
            let next = failures@.take(i + 1);
            assert(next.drop_last() =~= failures@.take(i as int));
            assert(next.last() == failures@[i as int]);
        }
        i = i + 1;
    }
    proof {
        assert(failures@.take(n as int) =~= failures@);
    }
    s
}

impl GraphError {
    /// The text the error is shown with.
    pub fn to_string(&self) -> (r: String)
        ensures
            r@ == error_text(*self),
        decreases self,
    {
        match self {
            GraphError::ConfigurationError(msg, inner) => {
                let mut s = String::from_str("Configuration error: ");
                s.append(msg.as_str());
                s.append("; ");
                let t = (**inner).to_string();
                s.append(t.as_str());
                s
            },
            GraphError::SetupFailed(description) => {
                let mut s = String::from_str("Setup failed: ");
                s.append(description.as_str());
                s
            },
            GraphError::NodeNotFound(id) => {
                let mut s = String::from_str("Node not found: ");
                s.append(id.as_str());
                s
            },
            GraphError::SlotNotFound { node_id, slot_id } => {
                let mut s = String::from_str("Slot ");
                s.append(slot_id.as_str());
                s.append(" not found on node ");
                s.append(node_id.as_str());
                s
            },
            GraphError::TemplateNotFound(id) => {
                let mut s = String::from_str("Template not found: ");
                s.append(id.as_str());
                s
            },
            GraphError::ConnectionCreationFailed { node_template_name, slot_template_name, reason } => {
                let mut s = String::from_str("Connection Creation Failed. From node ");
                s.append(node_template_name.as_str());
                s.append(", slot ");
                s.append(slot_template_name.as_str());
                s.append("; Reason: ");
                let t = pretty_error_debug(&**reason);
                s.append(t.as_str());
                s
            },
            GraphError::InvalidConnection { connection, reason } => {
                let mut s = String::from_str("Invalid connection from ");
                s.append(connection.host_node_id.as_str());
                s.append(":");
                s.append(connection.host_slot_template_id.as_str());
                s.append(" to ");
                s.append(connection.target_node_id.as_str());
                s.append(":");
                s.append(connection.target_slot_template_id.as_str());
                s.append(" - ");
                s.append(reason.as_str());
                s
            },
            GraphError::ValidationFailed(msg) => {
                let mut s = String::from_str("Validation failed: ");
                s.append(msg.as_str());
                s
            },
            GraphError::LockFailed(msg) => {
                let mut s = String::from_str("Lock acquisition failed: ");
                s.append(msg.as_str());
                s
            },
            GraphError::NodeCreationFailed { node_template_id, node_template_name, reason } => {
                let mut s = String::from_str("Node creation failed: ");
                s.append(node_template_id.as_str());
                s.append("\n Template name: ");
                s.append(node_template_name.as_str());
                s.append("\n Reason: ");
                let t = pretty_error_debug(&**reason);
                s.append(t.as_str());
                s
            },
            GraphError::NodeDeletionFailed { node_id, node_template_name, reason } => {
                let mut s = String::from_str("Node deletion failed: ");
                s.append(node_id.as_str());
                s.append("\n Template name: ");
                s.append(node_template_name.as_str());
                s.append("\n Reason: ");
                let t = pretty_error_debug(&**reason);
                s.append(t.as_str());
                s
            },
            GraphError::SlotDeletionFailed { slot_name, reason } => {
                let mut s = String::from_str("Slot deletion failed: ");
                s.append(slot_name.as_str());
                s.append("\n Reason: ");
                let t = pretty_error_debug(&**reason);
                s.append(t.as_str());
                s
            },
            GraphError::ConnectionDeletionFailed { connection, reason } => {
                let mut s = String::from_str("Connection deletion failed; ");
                let c = connection_debug_text(connection);
                s.append(c.as_str());
                s.append("; ");
                let t = (**reason).to_string();
                s.append(t.as_str());
                s
            },
            GraphError::ConnectionLocked => String::from_str("Connection is locked and cannot be deleted"),
            GraphError::SlotTemplateLocked { name } => {
                let mut s = String::from_str("Slot Template is locked and cannot be modified: ");
                s.append(name.as_str());
                s
            },
            GraphError::SlotInstanceLocked => String::from_str("Node Instance is locked and cannot be modified"),
            GraphError::NodeTemplateLocked { name } => {
                let mut s = String::from_str("Node Template is locked and cannot be modified: ");
                s.append(name.as_str());
                s
            },
            GraphError::NodeInstanceLocked => String::from_str("Node Instance is locked and cannot be modified"),
            GraphError::SomeConnectionDeletionsFailed { failures } => {
                texts_after("Some connections in the requested action were not deleted", failures)
            },
            GraphError::SomeSlotDeletionsFailed { failures } => {
                texts_after("Some slots in the requested action were not cleared", failures)
            },
            GraphError::SaveFailed { reason } => {
                let mut s = String::from_str("Save action failed. \nReason: ");
                let t = pretty_error_debug(&**reason);
                s.append(t.as_str());
                s
            },
            GraphError::GraphLockFailed => String::from_str("Could not obtain graph lock"),
            GraphError::SlotMalformed { template_name, slot_name, min, max, actual } => {
                let mut s = String::from_str("Slot is not well-formed. \nTemplate Name: ");
                s.append(template_name.as_str());
                s.append(", Slot Name: ");
                s.append(slot_name.as_str());
                s.append(", Minimum Connections: ");
                let lo = usize_text(*min);
                s.append(lo.as_str());
                s.append(", Maximum Connections: ");
                let hi = count_debug_text(*max);
                s.append(hi.as_str());
                s.append(", Current Number of Instances: ");
                let now = usize_text(*actual);
                s.append(now.as_str());
                s
            },
            GraphError::ListOfErrors(errors) => {
                let mut s = String::new();
                let n = errors.len();
                let mut i: usize = 0;
                while i < n
                    invariant
                        n == errors@.len(),
                        i <= n,
                        s@ == debug_texts_of(errors@.take(i as int)),
                    decreases n - i,
                {
                    let t = pretty_error_debug(&errors[i]);
                    s.append(t.as_str());
                    proof {
                        let next = errors@.take(i + 1);
                        assert(next.drop_last() =~= errors@.take(i as int));
                        assert(next.last() == errors@[i as int]);
                    }
                    i = i + 1;
                }
                proof {
                    assert(errors@.take(n as int) =~= errors@);
                }
                s
            },
            GraphError::Other(msg) => {
                let mut s = String::from_str("Other error: ");
                s.append(msg.as_str());
                s
            },
        }
    }
}

} // verus!
