//! The contract with the external Groth16 prover: how it is invoked and how
//! its outcome is judged.
use crate::error::AgentError;
use vstd::prelude::*;

verus! {

/// The prover invocation used when none is configured.
pub const DEFAULT_PROVER_CMD: &'static str = "node ../zk/scripts/prove.mjs";

/// A Groth16 proof as the prover prints it: field elements as numeric strings.
#[allow(non_snake_case)]
#[derive(Debug)]
pub struct ProveOutput {
    pub policyHash: String,
    pub a: [String; 2],
    pub b: [[String; 2]; 2],
    pub c: [String; 2],
    pub publicInputs: Vec<String>,
}

/// The character of a decimal digit.
pub open spec fn digit_char(d: nat) -> char {
    if d == 0 {
        '0'
    } else if d == 1 {
        '1'
    } else if d == 2 {
        '2'
    } else if d == 3 {
        '3'
    } else if d == 4 {
        '4'
    } else if d == 5 {
        '5'
    } else if d == 6 {
        '6'
    } else if d == 7 {
        '7'
    } else if d == 8 {
        '8'
    } else {
        '9'
    }
}

/// The decimal digits of `n`, without leading zeros.
pub open spec fn decimal_chars(n: nat) -> Seq<char>
    decreases n,
{
    if n < 10 {
        seq![digit_char(n)]
    } else {
        decimal_chars(n / 10) + seq![digit_char(n % 10)]
    }
}

fn digit_str(d: u64) -> (r: &'static str)
    requires
        d < 10,
    ensures
        r@ == seq![digit_char(d as nat)],
{
    proof {
        reveal_strlit("0");
        reveal_strlit("1");
        reveal_strlit("2");
        reveal_strlit("3");
        reveal_strlit("4");
        reveal_strlit("5");
        reveal_strlit("6");
        reveal_strlit("7");
        reveal_strlit("8");
        reveal_strlit("9");
    }
    let r = if d == 0 {
        "0"
    } else if d == 1 {
        "1"
    } else if d == 2 {
        "2"
    } else if d == 3 {
        "3"
    } else if d == 4 {
        "4"
    } else if d == 5 {
        "5"
    } else if d == 6 {
        "6"
    } else if d == 7 {
        "7"
    } else if d == 8 {
        "8"
    } else {
        "9"
    };
    assert(r@ =~= seq![digit_char(d as nat)]);
    r
}

/// `n` written in decimal.
pub fn decimal_string(n: u64) -> (r: String)
    ensures
        r@ == decimal_chars(n as nat),
    decreases n,
{
    if n < 10 {
        String::from_str(digit_str(n))
    } else {
        let mut s = decimal_string(n / 10);
        s.append(digit_str(n % 10));
        s
    }
}

/// The shell command line that asks the prover for a proof.
pub open spec fn prover_invocation(
    base: Seq<char>,
    safe: Seq<char>,
    nonce: u64,
    deadline: u64,
    allow_bitmap: u64,
    caps_bps_csv: Seq<char>,
    allocations_csv: Seq<char>,
) -> Seq<char> {
    base + " --vault "@ + safe + " --nonce "@ + decimal_chars(nonce as nat) + " --deadline "@
        + decimal_chars(deadline as nat) + " --allowBitmap "@ + decimal_chars(allow_bitmap as nat)
        + " --capsBps "@ + caps_bps_csv + " --allocations "@ + allocations_csv
}

/// The prover's base invocation: the configured one if any, else the default script.
pub fn prover_base_command(configured: Option<String>) -> (r: String)
    ensures
        configured is Some ==> r == configured->Some_0,
        configured is None ==> r@ == DEFAULT_PROVER_CMD@,
{
    match configured {
        Some(cmd) => cmd,
        None => String::from_str(DEFAULT_PROVER_CMD),
    }
}

/// Builds the command line `<base> --vault <safe> --nonce <n> --deadline <d>
/// --allowBitmap <bitmap> --capsBps <csv> --allocations <csv>`.
pub fn prover_command(
    base: &str,
    safe: &str,
    nonce: u64,
    deadline: u64,
    allow_bitmap: u64,
    caps_bps_csv: &str,
    allocations_csv: &str,
) -> (r: String)
    ensures
        r@ == prover_invocation(
            base@,
            safe@,
            nonce,
            deadline,
            allow_bitmap,
            caps_bps_csv@,
            allocations_csv@,
        ),
{
    let mut cmd = String::from_str(base);
    cmd.append(" --vault ");
    cmd.append(safe);
    cmd.append(" --nonce ");
    cmd.append(decimal_string(nonce).as_str());
    cmd.append(" --deadline ");
    cmd.append(decimal_string(deadline).as_str());
    cmd.append(" --allowBitmap ");
    cmd.append(decimal_string(allow_bitmap).as_str());
    cmd.append(" --capsBps ");
    cmd.append(caps_bps_csv);
    cmd.append(" --allocations ");
    cmd.append(allocations_csv);
    cmd
}

/// Judges a finished prover run. A failed exit is a `ProverExecution` error
/// carrying what the prover wrote to standard error; after a successful exit
/// the decoded standard output is the proof, and a decoding failure is a
/// `Parse` error carrying the decoder's message.
pub fn settle_prover_run(
    exit_success: bool,
    stderr: String,
    decoded: Result<ProveOutput, String>,
) -> (r: Result<ProveOutput, AgentError>)
    ensures
        !exit_success ==> r == Err::<ProveOutput, AgentError>(AgentError::ProverExecution(stderr)),
        exit_success && decoded is Ok ==> r == Ok::<ProveOutput, AgentError>(decoded->Ok_0),
        exit_success && decoded is Err ==> r == Err::<ProveOutput, AgentError>(
            AgentError::Parse(decoded->Err_0),
        ),
{
    if !exit_success {
        return Err(AgentError::ProverExecution(stderr));
    }
    match decoded {
        Ok(output) => Ok(output),
        Err(message) => Err(AgentError::Parse(message)),
    }
}

} // verus!
