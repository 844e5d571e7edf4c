//! MCP tools share normalized envelopes with the CLI.
use vstd::prelude::*;

use crate::domain::{Error, ErrorCode};
use crate::text::{is_listed, listed, same};

verus! {

/// A tool: the operation that it calls, and what it says of itself.
#[derive(Debug)]
pub struct Tool {
    pub operation: String,
    pub description: &'static str,
}

/// The name of the tool of an operation.
pub open spec fn tool_name(operation: Seq<char>) -> Seq<char> {
    "email_"@ + operation
}

/// The operations that have tools, in the order in which the tools are listed.
pub open spec fn tool_operations() -> Seq<Seq<char>> {
    seq![
        "list_accounts"@,
        "capabilities"@,
        "list_mailboxes"@,
        "search_messages"@,
        "get_message"@,
        "list_attachments"@,
        "get_attachment"@,
    ]
}

/// A tool is offered when its operation is one of those that the caller may use; discovery always is.
pub open spec fn is_offered(operation: Seq<char>, operations: Seq<String>) -> bool {
    operation == "list_accounts"@ || operation == "capabilities"@ || listed(operations, operation)
}

/// The operations of the offered tools, in order.
pub open spec fn offered_from(all: Seq<Seq<char>>, operations: Seq<String>) -> Seq<Seq<char>>
    decreases all.len(),
{
    if all.len() == 0 {
        Seq::empty()
    } else if is_offered(all.last(), operations) {
        offered_from(all.drop_last(), operations).push(all.last())
    } else {
        offered_from(all.drop_last(), operations)
    }
}

/// What the tool of an operation says of itself.
pub open spec fn description_of(operation: Seq<char>) -> Seq<char> {
    if operation == "list_accounts"@ {
        "List authorized email accounts with explicit completion."@
    } else if operation == "capabilities"@ {
        "Show effective permissions and implemented operations."@
    } else if operation == "list_mailboxes"@ {
        "List approved mailboxes or resolve a reusable mailbox reference."@
    } else if operation == "search_messages"@ {
        "Search one approved mailbox with AND predicates and bounded descending-UID pages."@
    } else if operation == "get_message"@ {
        "Read or continue bounded selected message text with representation and truncation metadata."@
    } else if operation == "list_attachments"@ {
        "List attachment metadata and reusable references without retrieving payloads."@
    } else {
        "Retrieve a bounded base64 chunk, or resume a transfer in this session."@
    }
}

/// Every tool describes its operation.
pub open spec fn are_described(tools: Seq<Tool>) -> bool {
    forall|i: int|
        0 <= i < tools.len() ==> (#[trigger] tools[i]).description@ == description_of(
            tools[i].operation@,
        )
}

pub open spec fn operation_views(tools: Seq<Tool>) -> Seq<Seq<char>> {
    tools.map_values(|tool: Tool| tool.operation@)
}

fn offer(
    tools: &mut Vec<Tool>,
    operations: &Vec<String>,
    operation: &str,
    description: &'static str,
    Ghost(count): Ghost<int>,
)
    requires
        0 <= count < tool_operations().len(),
        tool_operations()[count] == operation@,
        operation_views(old(tools)@) == offered_from(tool_operations().take(count), operations@),
        description@ == description_of(operation@),
        are_described(old(tools)@),
    ensures
        are_described(final(tools)@),
        operation_views(final(tools)@) == offered_from(
            tool_operations().take(count + 1),
            operations@,
        ),
{
    let ghost before = operation_views(tools@);
    assert(tool_operations().take(count + 1).drop_last() =~= tool_operations().take(count));
    assert(tool_operations().take(count + 1).last() == operation@);
    if same(operation, "list_accounts") || same(operation, "capabilities") || is_listed(
        operations,
        operation,
    ) {
        tools.push(Tool { operation: operation.to_owned(), description });
        assert(operation_views(tools@) =~= before.push(operation@));
    }
}

proof fn names_differ()
    ensures
        forall|i: int, j: int|
            0 <= i < j < tool_operations().len() ==> #[trigger] tool_operations()[i]
                != #[trigger] tool_operations()[j],
{
    reveal_strlit("list_accounts");
    reveal_strlit("capabilities");
    reveal_strlit("list_mailboxes");
    reveal_strlit("search_messages");
    reveal_strlit("get_message");
    reveal_strlit("list_attachments");
    reveal_strlit("get_attachment");
    let all = tool_operations();
    assert(all[0].len() == 13 && all[1].len() == 12 && all[2].len() == 14);
    assert(all[3].len() == 15 && all[4].len() == 11 && all[5].len() == 16 && all[6].len() == 14);
    assert(all[2][0] == 'l' && all[6][0] == 'g');
}

/// The tools of a caller that may use these operations.
pub fn definitions(operations: &Vec<String>) -> (r: Vec<Tool>)
    ensures
        operation_views(r@) == offered_from(tool_operations(), operations@),
        are_described(r@),
{
    let mut tools: Vec<Tool> = Vec::new();
    proof {
        names_differ();
    }
    assert(operation_views(tools@) =~= offered_from(tool_operations().take(0), operations@));
    offer(
        &mut tools,
        operations,
        "list_accounts",
        "List authorized email accounts with explicit completion.",
        Ghost(0),
    );
    offer(
        &mut tools,
        operations,
        "capabilities",
        "Show effective permissions and implemented operations.",
        Ghost(1),
    );
    offer(
        &mut tools,
        operations,
        "list_mailboxes",
        "List approved mailboxes or resolve a reusable mailbox reference.",
        Ghost(2),
    );
    offer(
        &mut tools,
        operations,
        "search_messages",
        "Search one approved mailbox with AND predicates and bounded descending-UID pages.",
        Ghost(3),
    );
    offer(
        &mut tools,
        operations,
        "get_message",
        "Read or continue bounded selected message text with representation and truncation metadata.",
        Ghost(4),
    );
    offer(
        &mut tools,
        operations,
        "list_attachments",
        "List attachment metadata and reusable references without retrieving payloads.",
        Ghost(5),
    );
    offer(
        &mut tools,
        operations,
        "get_attachment",
        "Retrieve a bounded base64 chunk, or resume a transfer in this session.",
        Ghost(6),
    );
    assert(tool_operations().take(7) =~= tool_operations());
    tools
}

/// The operation of the tool of this name, among those that are offered.
pub fn operation_of(tools: &Vec<Tool>, name: &str) -> (r: Option<String>)
    ensures
        match r {
            Some(operation) => tool_name(operation@) == name@ && operation_views(tools@).contains(
                operation@,
            ),
            None => forall|operation: Seq<char>|
                operation_views(tools@).contains(operation) ==> #[trigger] tool_name(operation)
                    != name@,
        },
{
    for i in 0..tools.len()
        invariant
            forall|j: int|
                0 <= j < i ==> #[trigger] tool_name(operation_views(tools@)[j]) != name@,
    {
        let mut full = "email_".to_owned();
        full.push_str(tools[i].operation.as_str());
        assert(full@ =~= tool_name(operation_views(tools@)[i as int]));
        if same(full.as_str(), name) {
            assert(operation_views(tools@)[i as int] == tools@[i as int].operation@);
            return Some(tools[i].operation.clone());
        }
    }
    proof {
        assert forall|operation: Seq<char>|
            operation_views(tools@).contains(operation) implies #[trigger] tool_name(operation)
            != name@ by {
            let j = choose|j: int|
                0 <= j < operation_views(tools@).len() && operation_views(tools@)[j] == operation;
            assert(tool_name(operation_views(tools@)[j]) != name@);
        }
    }
    None
}

/// Whether a call carries its arguments along: the question for capabilities takes none, and is refused
/// with any.
pub fn carries_input(operation: &str, empty: bool) -> (r: bool)
    ensures
        r == (operation@ != "capabilities"@ || !empty),
{
    !same(operation, "capabilities") || !empty
}

/// A changed configuration ends the session.
pub fn ends_session(error: Option<&Error>) -> (r: bool)
    ensures
        r == (error matches Some(error) && error.code is OperationConflict),
{
    match error {
        Some(error) => error.code == ErrorCode::OperationConflict,
        None => false,
    }
}

/// Replaces a result that does not fit into an envelope by the failure that says so.
pub fn fit<T>(result: Result<T, Error>, size: usize, limit: usize) -> (r: Result<T, Error>)
    ensures
        if size <= limit {
            r == result
        } else {
            r matches Err(error) && error.reports(ErrorCode::ResponseTooLarge)
        },
{
    if size <= limit {
        result
    } else {
        Err(Error::new(ErrorCode::ResponseTooLarge))
    }
}

/// The tools of a caller call only operations that it may use.
pub proof fn tools_stay_within_operations(all: Seq<Seq<char>>, operations: Seq<String>, operation: Seq<char>)
    requires
        offered_from(all, operations).contains(operation),
    ensures
        is_offered(operation, operations),
        all.contains(operation),
    decreases all.len(),
{
    if all.len() > 0 {
        let rest = offered_from(all.drop_last(), operations);
        if rest.contains(operation) {
            tools_stay_within_operations(all.drop_last(), operations, operation);
            let i = choose|i: int|
                0 <= i < all.drop_last().len() && all.drop_last()[i] == operation;
            assert(all[i] == operation);
        } else {
            let now = offered_from(all, operations);
            let i = choose|i: int| 0 <= i < now.len() && now[i] == operation;
            if i < rest.len() {
                assert(rest[i] == operation);
            }
            assert(all[all.len() - 1] == operation);
        }
    }
}

/// Every tool whose operation is implemented is offered, in the order of the list, and two are offered in
/// any case; each goes by the name of its operation with a common prefix.
pub proof fn implemented_tools_are_offered(all: Seq<Seq<char>>, operations: Seq<String>, operation: Seq<char>)
    ensures
        offered_from(all, operations) == all.filter(|name: Seq<char>| is_offered(name, operations)),
        is_offered(operation, operations) <==> (operation == "list_accounts"@ || operation == "capabilities"@
            || exists|i: int| 0 <= i < operations.len() && (#[trigger] operations[i])@ == operation),
        tool_name(operation).len() == 6 + operation.len(),
        tool_name(operation).skip(6) == operation,
    decreases all.len(),
{
    reveal_strlit("email_");
    assert(tool_name(operation).skip(6) =~= operation);
    reveal(Seq::filter);
    if all.len() > 0 {
        implemented_tools_are_offered(all.drop_last(), operations, operation);
    }
}

/// No tool writes: what the tools offer is listing, searching and reading.
pub proof fn no_tool_writes(i: int)
    requires
        0 <= i < tool_operations().len(),
    ensures
        tool_operations()[i] != "save_draft"@,
        tool_operations()[i] != "draft_status"@,
        tool_operations().len() == 7,
        tool_operations()[i] == "list_accounts"@ || tool_operations()[i] == "capabilities"@ || tool_operations()[i]
            == "list_mailboxes"@ || tool_operations()[i] == "search_messages"@ || tool_operations()[i]
            == "get_message"@ || tool_operations()[i] == "list_attachments"@ || tool_operations()[i]
            == "get_attachment"@,
{
    reveal_strlit("save_draft");
    reveal_strlit("draft_status");
    reveal_strlit("list_accounts");
    reveal_strlit("capabilities");
    reveal_strlit("list_mailboxes");
    reveal_strlit("search_messages");
    reveal_strlit("get_message");
    reveal_strlit("list_attachments");
    reveal_strlit("get_attachment");
    let all = tool_operations();
    assert(all[i][0] != "save_draft"@[0] || all[i][1] != "save_draft"@[1]);
    assert(all[i][0] != "draft_status"@[0]);
}

/// Every tool is described by what it does, each differently.
pub proof fn tools_are_described_apart(i: int, j: int)
    requires
        0 <= i < tool_operations().len(),
        0 <= j < tool_operations().len(),
    ensures
        description_of(tool_operations()[i]) == description_of(tool_operations()[j]) ==> i == j,
{
    reveal_strlit("list_accounts");
    reveal_strlit("capabilities");
    reveal_strlit("list_mailboxes");
    reveal_strlit("search_messages");
    reveal_strlit("get_message");
    reveal_strlit("list_attachments");
    reveal_strlit("get_attachment");
    reveal_strlit("List authorized email accounts with explicit completion.");
    reveal_strlit("Show effective permissions and implemented operations.");
    reveal_strlit("List approved mailboxes or resolve a reusable mailbox reference.");
    reveal_strlit("Search one approved mailbox with AND predicates and bounded descending-UID pages.");
    reveal_strlit("Read or continue bounded selected message text with representation and truncation metadata.");
    reveal_strlit("List attachment metadata and reusable references without retrieving payloads.");
    reveal_strlit("Retrieve a bounded base64 chunk, or resume a transfer in this session.");
    let all = tool_operations();
    assert(all[0].len() == 13 && all[1].len() == 12 && all[2].len() == 14 && all[3].len() == 15 && all[4].len() == 11
        && all[5].len() == 16 && all[6].len() == 14);
    assert(all[2][0] == 'l' && all[6][0] == 'g');
    assert(description_of(all[i]).len() == description_of(all[j]).len() ==> i == j);
}

/// An answer of a tool is given where it fits and refused otherwise, and a session ends only on a conflict.
pub proof fn answers_of_tools_fit(
    result: Result<u64, Error>,
    size: usize,
    limit: usize,
    fitted: Result<u64, Error>,
    error: Option<&Error>,
    ends: bool,
)
    requires
        call_ensures(fit::<u64>, (result, size, limit), fitted),
        call_ensures(ends_session, (error,), ends),
    ensures
        size <= limit ==> fitted == result,
        size > limit ==> (fitted matches Err(refused) && refused.code is ResponseTooLarge),
        error is None ==> !ends,
        error matches Some(failed) ==> (ends <==> failed.code is OperationConflict),
{
}

} // verus!
