//! What clients say to a server, and what it says back.

use crate::clock::unix_now;
use crate::config::Config;
use crate::group::GroupView;
use crate::oracle::ChainOracle;
use crate::registry::{admission, Admission, GroupInfo, Registry};
use crate::text::{decimal, push_decimal, push_rate, push_signed, rate_text, signed_decimal};
use crate::validation::Rejection;
use vstd::prelude::*;
use vstd::string::StringExecFns;
use vstd::utf8::encode_utf8;

verus! {

/// What a client asks for.
#[derive(Clone, Debug, PartialEq, Eq)]
pub enum Command {
    /// To take a transaction, given in hexadecimal text.
    AddTx { tx_hex: String },
    /// To list the groups.
    GetGroupsInfo,
    /// Something that the server does not offer.
    Unknown,
    /// Nothing, or more than a command and one argument.
    Malformed,
}

/// Mathematical value of a [`Command`].
pub enum Request {
    AddTx { tx_hex: Seq<char> },
    GetGroupsInfo,
    Unknown,
    Malformed,
}

impl View for Command {
    type V = Request;

    open spec fn view(&self) -> Request {
        match self {
            Command::AddTx { tx_hex } => Request::AddTx { tx_hex: tx_hex@ },
            Command::GetGroupsInfo => Request::GetGroupsInfo,
            Command::Unknown => Request::Unknown,
            Command::Malformed => Request::Malformed,
        }
    }
}

/// The words of a line, as texts.
pub open spec fn words(parts: Seq<String>) -> Seq<Seq<char>> {
    Seq::new(parts.len(), |i: int| parts[i]@)
}

/// What the words of a line ask for. A line is one or two words; the first
/// names the command, and `add_tx` without a second word carries the empty
/// text.
pub open spec fn request(parts: Seq<Seq<char>>) -> Request {
    if parts.len() == 0 || parts.len() > 2 {
        Request::Malformed
    } else if parts[0] == "add_tx"@ {
        Request::AddTx {
            tx_hex: if parts.len() == 2 {
                parts[1]
            } else {
                Seq::empty()
            },
        }
    } else if parts[0] == "get_groupsInfo"@ {
        Request::GetGroupsInfo
    } else {
        Request::Unknown
    }
}

/// Reads a command from the words of a line.
pub fn interpret(parts: &Vec<String>) -> (command: Command)
    ensures
        command@ == request(words(parts@)),
{
    if parts.len() == 0 || parts.len() > 2 {
        return Command::Malformed;
    }
    assert(words(parts@)[0] == parts@[0]@);
    if parts[0] == String::from_str("add_tx") {
        let tx_hex = if parts.len() == 2 {
            assert(words(parts@)[1] == parts@[1]@);
            parts[1].clone()
        } else {
            String::new()
        };
        Command::AddTx { tx_hex }
    } else if parts[0] == String::from_str("get_groupsInfo") {
        Command::GetGroupsInfo
    } else {
        Command::Unknown
    }
}

/// The line that greets a client, by the name of the chain that the server
/// works on. Under any other name a client is not greeted.
pub open spec fn greeting_text(network: Seq<char>) -> Option<Seq<char>> {
    if network == "testnet"@ {
        Some("TESTNET\n"@)
    } else if network == "mainnet"@ {
        Some("MAINNET\n"@)
    } else if network == "signet"@ {
        Some("SIGNET\n"@)
    } else {
        None
    }
}

/// Writes the line that greets a client.
pub fn greeting(network: &String) -> (line: Option<String>)
    ensures
        line is Some <==> greeting_text(network@) is Some,
        line matches Some(text) ==> greeting_text(network@) == Some(text@),
{
    if *network == String::from_str("testnet") {
        Some(String::from_str("TESTNET\n"))
    } else if *network == String::from_str("mainnet") {
        Some(String::from_str("MAINNET\n"))
    } else if *network == String::from_str("signet") {
        Some(String::from_str("SIGNET\n"))
    } else {
        None
    }
}

/// The answer to a line that is no command.
pub open spec fn malformed_text() -> Seq<char> {
    "One or two arguments are expected\n"@
}

/// The answer to a command that the server does not offer.
pub open spec fn unknown_text() -> Seq<char> {
    "Unknown command sent\n"@
}

/// The answer to a transaction: `Ok`, or the reason why it was rejected.
pub open spec fn admission_text(outcome: Result<Admission, Rejection>, network: Seq<char>) -> Seq<
    char,
> {
    match outcome {
        Ok(_) => "Ok\n"@,
        Err(e) => "Error: "@ + e.text(network) + "\n"@,
    }
}

/// Writes the answer to a transaction.
pub fn admission_reply(outcome: &Result<Admission, Rejection>, network: &str) -> (reply: String)
    ensures
        reply@ == admission_text(*outcome, network@),
{
    match outcome {
        Ok(_) => String::from_str("Ok\n"),
        Err(e) => {
            let mut reply = String::from_str("Error: ");
            let message = e.message(network);
            reply.append(message.as_str());
            reply.append("\n");
            reply
        },
    }
}

/// The line that tells of one group, its fee rate in satoshis per virtual
/// byte.
pub open spec fn group_line(info: GroupInfo) -> Seq<char> {
    "Fee: "@ + rate_text(info.fee_rate as nat) + ", Size: "@ + decimal(info.size as nat) + "/"@
        + decimal(info.max_size as nat) + ", Timestamp: "@ + signed_decimal(info.timestamp as int)
        + "\n"@
}

/// The lines that tell of the groups, one after the other.
pub open spec fn group_lines(list: Seq<GroupInfo>) -> Seq<char>
    decreases list.len(),
{
    if list.len() == 0 {
        Seq::empty()
    } else {
        group_lines(list.drop_last()) + group_line(list.last())
    }
}

/// The answer to a request for the groups: a line for each, or one that says
/// that there are none, and a last line `EOF`.
pub open spec fn groups_text(list: Seq<GroupInfo>) -> Seq<char> {
    if list.len() == 0 {
        "There's no groups\n"@ + "EOF\n"@
    } else {
        group_lines(list) + "EOF\n"@
    }
}

/// Writes the line that tells of one group behind what the text holds.
pub fn push_group_line(out: &mut String, info: &GroupInfo)
    ensures
        final(out)@ == old(out)@ + group_line(*info),
{
    out.append("Fee: ");
    push_rate(out, info.fee_rate);
    let ghost fee = "Fee: "@ + rate_text(info.fee_rate as nat);
    assert(out@ =~= old(out)@ + fee);
    out.append(", Size: ");
    push_decimal(out, info.size as u64);
    out.append("/");
    push_decimal(out, info.max_size as u64);
    let ghost size = fee + ", Size: "@ + decimal(info.size as nat) + "/"@ + decimal(
        info.max_size as nat,
    );
    assert(out@ =~= old(out)@ + size);
    out.append(", Timestamp: ");
    push_signed(out, info.timestamp);
    out.append("\n");
    assert(out@ =~= old(out)@ + group_line(*info));
}

/// Writes the answer to a request for the groups.
pub fn groups_reply(list: &Vec<GroupInfo>) -> (reply: String)
    ensures
        reply@ == groups_text(list@),
{
    let mut reply = String::new();
    if list.len() == 0 {
        reply.append("There's no groups\n");
    }
    let mut i: usize = 0;
    while i < list.len()
        invariant
            i <= list.len(),
            list.len() > 0 ==> reply@ == group_lines(list@.take(i as int)),
            list.len() == 0 ==> reply@ == "There's no groups\n"@,
        decreases list.len() - i,
    {
        push_group_line(&mut reply, &list[i]);
        assert(list@.take(i + 1).drop_last() =~= list@.take(i as int));
        i += 1;
    }
    assert(list@.take(list.len() as int) =~= list@);
    reply.append("EOF\n");
    reply
}

/// What a registry tells of its groups.
pub open spec fn infos(groups: Seq<GroupView>, max_size: usize) -> Seq<GroupInfo> {
    Seq::new(
        groups.len(),
        |i: int|
            GroupInfo {
                fee_rate: groups[i].fee_rate,
                size: groups[i].pairs.len() as usize,
                max_size,
                timestamp: groups[i].timestamp,
            },
    )
}

/// Whether `reply` answers the request, and `after` is what becomes of the
/// groups `before`. Only a transaction can change them.
pub open spec fn answers(
    before: Seq<GroupView>,
    after: Seq<GroupView>,
    asked: Request,
    config: Config,
    reply: Seq<char>,
) -> bool {
    match asked {
        Request::Malformed => after == before && reply == malformed_text(),
        Request::Unknown => after == before && reply == unknown_text(),
        Request::GetGroupsInfo => after == before && reply == groups_text(
            infos(before, config.group.max_size),
        ),
        Request::AddTx { tx_hex } => answers_transaction(before, after, tx_hex, config, reply),
    }
}

/// Whether `reply` answers a transaction in hexadecimal text, and `after` is
/// what becomes of the groups `before`.
pub open spec fn answers_transaction(
    before: Seq<GroupView>,
    after: Seq<GroupView>,
    tx_hex: Seq<char>,
    config: Config,
    reply: Seq<char>,
) -> bool {
    exists|now: i64, outcome: Result<Admission, Rejection>|
        #![trigger admission(before, after, encode_utf8(tx_hex), config, now, outcome)]
        admission(before, after, encode_utf8(tx_hex), config, now, outcome) && reply
            == admission_text(outcome, config.network.name@)
}

/// Serves one line of a client: reads the command from its words, lets the
/// registry do what it asks, and writes the answer.
pub fn respond<O: ChainOracle>(
    registry: &mut Registry,
    oracle: &mut O,
    config: &Config,
    parts: &Vec<String>,
) -> (reply: String)
    requires
        old(registry).wf(),
    ensures
        final(registry).wf(),
        answers(old(registry)@, final(registry)@, request(words(parts@)), *config, reply@),
{
    match interpret(parts) {
        Command::Malformed => String::from_str("One or two arguments are expected\n"),
        Command::Unknown => String::from_str("Unknown command sent\n"),
        Command::GetGroupsInfo => {
            let list = registry.snapshot(config.group.max_size);
            assert(list@ =~= infos(registry@, config.group.max_size));
            groups_reply(&list)
        },
        Command::AddTx { tx_hex } => {
            let now = unix_now();
            let outcome = registry.admit_at(oracle, config, tx_hex.as_str(), now);
            assert(admission(
                old(registry)@,
                registry@,
                encode_utf8(tx_hex@),
                *config,
                now,
                outcome,
            ));
            admission_reply(&outcome, config.network.name.as_str())
        },
    }
}

} // verus!
