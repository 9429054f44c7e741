use crate::goto::PathWithLineAndColumn;
use vstd::prelude::*;

verus! {

pub open spec fn digit_char(d: nat) -> char {
    seq!['0', '1', '2', '3', '4', '5', '6', '7', '8', '9'][d as int]
}

/// The decimal notation of a number, without leading zeros.
pub open spec fn decimal(n: nat) -> Seq<char>
    decreases n,
{
    if n < 10 {
        seq![digit_char(n)]
    } else {
        decimal(n / 10).push(digit_char(n % 10))
    }
}

fn digit_str(d: usize) -> (r: &'static str)
    requires
        d < 10,
    ensures
        r@ == seq![digit_char(d as nat)],
{
    let digits = "0123456789";
    proof {
        reveal_strlit("0123456789");
    }
    let r = digits.substring_char(d, d + 1);
    assert(r@ =~= seq![digit_char(d as nat)]);
    r
}

/// The decimal notation of `n`.
pub fn decimal_string(n: usize) -> (r: String)
    ensures
        r@ == decimal(n as nat),
    decreases n,
{
    if n < 10 {
        String::from_str(digit_str(n))
    } else {
        let mut s = decimal_string(n / 10);
        s.append(digit_str(n % 10));
        s
    }
}

/// A value that stands for an absent number in the editor's command: 0.
pub open spec fn or_zero(v: Option<usize>) -> nat {
    match v {
        Some(n) => n as nat,
        None => 0,
    }
}

/// The keys sent to the editor: leave any pending mode, open the file, and
/// put the cursor at the line and column (0 where absent).
pub open spec fn remote_send_keys(path: Seq<char>, line: Option<usize>, column: Option<usize>) -> Seq<
    char,
> {
    "<C-\\><C-N>:n "@ + path + "<CR>|:call cursor("@ + decimal(or_zero(line)) + ","@ + decimal(
        or_zero(column),
    ) + ")<CR>"@
}

/// The key sequence that opens `spec.path` at its line and column in the
/// editor server.
pub fn remote_send_command(spec: &PathWithLineAndColumn) -> (r: String)
    ensures
        r@ == remote_send_keys(spec.path@, spec.line, spec.column),
{
    let line = match spec.line {
        Some(n) => n,
        None => 0,
    };
    let column = match spec.column {
        Some(n) => n,
        None => 0,
    };
    let mut r = String::from_str("<C-\\><C-N>:n ");
    r.append(spec.path.as_str());
    r.append("<CR>|:call cursor(");
    let l = decimal_string(line);
    r.append(l.as_str());
    r.append(",");
    let c = decimal_string(column);
    r.append(c.as_str());
    r.append(")<CR>");
    r
}

/// The arguments handed to the terminal program so that it runs the editor
/// as a server listening on `endpoint`.
pub open spec fn launch_args_spec(endpoint: Seq<char>) -> Seq<Seq<char>> {
    seq!["-e"@, "bash"@, "-c"@, "nvim"@, "--listen"@, endpoint]
}

/// The terminal's arguments that start the editor server on `endpoint`.
pub fn launch_args(endpoint: &str) -> (r: Vec<String>)
    ensures
        r@.map_values(|a: String| a@) == launch_args_spec(endpoint@),
{
    let mut r: Vec<String> = Vec::new();
    r.push(String::from_str("-e"));
    r.push(String::from_str("bash"));
    r.push(String::from_str("-c"));
    r.push(String::from_str("nvim"));
    r.push(String::from_str("--listen"));
    r.push(String::from_str(endpoint));
    assert(r@.map_values(|a: String| a@) =~= launch_args_spec(endpoint@));
    r
}

} // verus!
