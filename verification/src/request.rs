//! The request that asks the node for the traces of one block.

use vstd::prelude::*;
use vstd::string::StringExecFns;

verus! {

/// The lower-case hexadecimal digit of a value below sixteen.
pub open spec fn hex_digit(value: nat) -> char {
    if value == 0 {
        '0'
    } else if value == 1 {
        '1'
    } else if value == 2 {
        '2'
    } else if value == 3 {
        '3'
    } else if value == 4 {
        '4'
    } else if value == 5 {
        '5'
    } else if value == 6 {
        '6'
    } else if value == 7 {
        '7'
    } else if value == 8 {
        '8'
    } else if value == 9 {
        '9'
    } else if value == 10 {
        'a'
    } else if value == 11 {
        'b'
    } else if value == 12 {
        'c'
    } else if value == 13 {
        'd'
    } else if value == 14 {
        'e'
    } else {
        'f'
    }
}

/// The hexadecimal digits of a number, most significant first, without
/// leading zeros; the single digit `0` for zero.
pub open spec fn hex_digits(n: nat) -> Seq<char>
    decreases n,
{
    if n < 16 {
        seq![hex_digit(n)]
    } else {
        hex_digits(n / 16).push(hex_digit(n % 16))
    }
}

/// A block number as the node expects it: `0x` and its hexadecimal digits.
pub open spec fn block_parameter(block_number: u64) -> Seq<char> {
    seq!['0', 'x'] + hex_digits(block_number as nat)
}

/// The digit of a value below sixteen, as text.
fn digit_text(value: u64) -> (text: &'static str)
    requires
        value < 16,
    ensures
        text@ == seq![hex_digit(value as nat)],
{
    proof {
        reveal_strlit("0");
        reveal_strlit("1");
        reveal_strlit("2");
        reveal_strlit("3");
        reveal_strlit("4");
        reveal_strlit("5");
        reveal_strlit("6");
        reveal_strlit("7");
        reveal_strlit("8");
        reveal_strlit("9");
        reveal_strlit("a");
        reveal_strlit("b");
        reveal_strlit("c");
        reveal_strlit("d");
        reveal_strlit("e");
        reveal_strlit("f");
    }
    let text = if value == 0 {
        "0"
    } else if value == 1 {
        "1"
    } else if value == 2 {
        "2"
    } else if value == 3 {
        "3"
    } else if value == 4 {
        "4"
    } else if value == 5 {
        "5"
    } else if value == 6 {
        "6"
    } else if value == 7 {
        "7"
    } else if value == 8 {
        "8"
    } else if value == 9 {
        "9"
    } else if value == 10 {
        "a"
    } else if value == 11 {
        "b"
    } else if value == 12 {
        "c"
    } else if value == 13 {
        "d"
    } else if value == 14 {
        "e"
    } else {
        "f"
    };
    assert(text@ =~= seq![hex_digit(value as nat)]);
    text
}

/// Appends the hexadecimal digits of `n` to `text`.
fn push_hex(text: &mut String, n: u64)
    ensures
        final(text)@ == old(text)@ + hex_digits(n as nat),
    decreases n,
{
    if n >= 16 {
        push_hex(text, n / 16);
    }
    text.append(digit_text(n % 16));
    assert(text@ =~= old(text)@ + hex_digits(n as nat));
}

/// The block number as the parameter of a trace request.
pub fn block_param(block_number: u64) -> (text: String)
    ensures
        text@ == block_parameter(block_number),
{
    proof {
        reveal_strlit("0x");
    }
    let mut text = String::from_str("0x");
    assert(text@ =~= seq!['0', 'x']);
    push_hex(&mut text, block_number);
    text
}

/// A request for the traces of one block, ready to be sent as JSON-RPC.
#[derive(Debug)]
pub struct TraceRequest {
    pub jsonrpc: String,
    pub method: String,
    pub params: Vec<String>,
    pub id: u32,
}

/// The request for the traces of block `block_number`: method `trace_block`,
/// the block number as its one parameter, request identifier 1.
pub fn trace_request(block_number: u64) -> (request: TraceRequest)
    ensures
        request.jsonrpc@ == "2.0"@,
        request.method@ == "trace_block"@,
        request.params@.len() == 1,
        request.params@[0]@ == block_parameter(block_number),
        request.id == 1,
{
    let mut params: Vec<String> = Vec::new();
    params.push(block_param(block_number));
    TraceRequest {
        jsonrpc: String::from_str("2.0"),
        method: String::from_str("trace_block"),
        params,
        id: 1,
    }
}

} // verus!
