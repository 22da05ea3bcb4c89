use vstd::prelude::*;
use vstd::string::StringExecFns;
use vstd::utf8::is_ascii_chars_encode_utf8;

use crate::error::BitcoinError;

verus! {

/// A command that the argument interpreter accepts.
#[derive(Debug)]
pub enum CliCommand {
    /// Send `amount` units of currency to `address`.
    Send { amount: u64, address: String },
    /// Show the balance.
    Balance,
}

/// A decimal digit.
pub open spec fn is_digit_char(c: char) -> bool {
    '0' <= c && c <= '9'
}

/// The numeric value a decimal digit stands for.
pub open spec fn char_digit(c: char) -> nat {
    (c as int - 48) as nat
}

/// The numeric value of a decimal digit sequence, most significant digit
/// first.
pub open spec fn dec_value(s: Seq<char>) -> nat
    decreases s.len(),
{
    if s.len() == 0 {
        0
    } else {
        dec_value(s.drop_last()) * 10 + char_digit(s.last())
    }
}

/// A non-empty, all-digit character sequence.
pub open spec fn is_dec_string(s: Seq<char>) -> bool {
    s.len() > 0 && forall|i: int| 0 <= i < s.len() ==> is_digit_char(#[trigger] s[i])
}

/// A digit sequence whose value fits an unsigned 64-bit integer: exactly
/// the amounts the interpreter accepts. A leading sign, even `+`, is not
/// a digit, so negative amounts are never accepted.
pub open spec fn is_dec_u64(s: Seq<char>) -> bool {
    is_dec_string(s) && dec_value(s) <= u64::MAX
}

// Appending digits never decreases the value of the prefix read so far.
proof fn lemma_dec_value_prefix_le(s: Seq<char>, i: int, j: int)
    requires
        0 <= i <= j <= s.len(),
    ensures
        dec_value(s.take(i)) <= dec_value(s.take(j)),
    decreases j - i,
{
    if i < j {
        lemma_dec_value_prefix_le(s, i, j - 1);
        assert(s.take(j).drop_last() =~= s.take(j - 1));
        assert(dec_value(s.take(j)) == dec_value(s.take(j - 1)) * 10 + char_digit(
            s.take(j).last(),
        ));
    }
}

/// Reads a base-10 unsigned 64-bit integer: the string must be non-empty,
/// all digits, and the value must fit.
#[verifier::loop_isolation(false)]
fn parse_u64_dec(s: &str) -> (r: Option<u64>)
    ensures
        match r {
            Some(v) => is_dec_u64(s@) && v == dec_value(s@),
            None => !is_dec_u64(s@),
        },
{
    if !s.is_ascii() {
        proof {
            if is_dec_string(s@) {
                assert forall|i: int| 0 <= i < s@.len() implies '\0' <= #[trigger] s@[i]
                    <= '\u{7f}' by {
                    assert(is_digit_char(s@[i]));
                }
                assert(false);
            }
        }
        return None;
    }
    proof {
        is_ascii_chars_encode_utf8(s@);
    }
    let b = s.as_bytes();
    let n = b.len();
    if n == 0 {
        return None;
    }
    let mut acc: u64 = 0;
    let mut i: usize = 0;
    proof {
        assert(s@.take(0) =~= Seq::<char>::empty());
    }
    while i < n
        invariant
            i <= n,
            forall|q: int| 0 <= q < i ==> is_digit_char(#[trigger] s@[q]),
            acc == dec_value(s@.take(i as int)),
        decreases n - i,
    {
        let c = b[i];
        proof {
            assert(s@[i as int] as u8 == b@[i as int]);
            assert(s@[i as int] as int <= 0x7f);
        }
        if c < 48 || c > 57 {
            proof {
                if is_digit_char(s@[i as int]) {
                    assert(48 <= s@[i as int] as int <= 57);
                    assert(48 <= c <= 57);
                    assert(false);
                }
            }
            return None;
        }
        proof {
            assert(s@[i as int] as int == c as int);
            assert(is_digit_char(s@[i as int]));
            assert(s@.take(i as int + 1).drop_last() =~= s@.take(i as int));
            assert(s@.take(i as int + 1).last() == s@[i as int]);
            assert(char_digit(s@[i as int]) == (c - 48) as nat);
        }
        let d = (c - 48) as u64;
        if acc > (u64::MAX - d) / 10 {
            proof {
                let q = ((u64::MAX - d) / 10) as int;
                assert((u64::MAX - d) == q * 10 + ((u64::MAX - d) % 10));
                assert(acc * 10 + d > u64::MAX) by (nonlinear_arith)
                    requires
                        acc >= q + 1,
                        (u64::MAX - d) < q * 10 + 10,
                ;
                assert(dec_value(s@.take(i as int + 1)) > u64::MAX);
                lemma_dec_value_prefix_le(s@, i as int + 1, s@.len() as int);
                assert(s@.take(s@.len() as int) =~= s@);
            }
            return None;
        }
        proof {
            let q = ((u64::MAX - d) / 10) as int;
            assert((u64::MAX - d) == q * 10 + ((u64::MAX - d) % 10));
            assert(acc * 10 + d <= u64::MAX) by (nonlinear_arith)
                requires
                    acc <= q,
                    q * 10 <= (u64::MAX - d),
            ;
        }
        acc = acc * 10 + d;
        i += 1;
    }
    proof {
        assert(s@.take(n as int) =~= s@);
    }
    Some(acc)
}

// Relies on String's equality, which vstd specifies as equality of the
// character sequences.
fn string_matches(s: &String, lit: &str) -> (r: bool)
    ensures
        r == (s@ == lit@),
{
    let other = String::from_str(lit);
    s.eq(&other)
}

/// Interprets command-line arguments. Two forms are accepted: `send
/// <amount> <address>`, where the amount must be a non-negative 64-bit
/// decimal integer, and `balance`. Arguments beyond those consumed are
/// ignored. Every misuse returns a descriptive `ParseError`; nothing
/// panics.
pub fn parse_cli_args(args: &[String]) -> (r: Result<CliCommand, BitcoinError>)
    ensures
        match r {
            Ok(c) => match c {
                CliCommand::Send { amount, address } => {
                    &&& args@.len() >= 3
                    &&& args@[0]@ == "send"@
                    &&& is_dec_u64(args@[1]@)
                    &&& amount == dec_value(args@[1]@)
                    &&& address@ == args@[2]@
                },
                CliCommand::Balance => {
                    &&& args@.len() >= 1
                    &&& args@[0]@ == "balance"@
                    &&& args@[0]@ != "send"@
                },
            },
            Err(e) => e matches BitcoinError::ParseError(m) && {
                ||| (args@.len() == 0 && m@ == "Not enough parameters"@)
                ||| (args@.len() >= 1 && args@[0]@ == "send"@ && args@.len() < 3 && m@
                    == "Not enough arguments"@)
                ||| (args@.len() >= 3 && args@[0]@ == "send"@ && !is_dec_u64(args@[1]@) && m@
                    == "Invalid amount"@)
                ||| (args@.len() >= 1 && args@[0]@ != "send"@ && args@[0]@ != "balance"@ && m@
                    == "Unknown command: "@ + args@[0]@)
            },
        },
        args@.len() >= 1 && args@[0]@ == "balance"@ ==> r matches Ok(CliCommand::Balance),
        args@.len() >= 3 && args@[0]@ == "send"@ && is_dec_u64(args@[1]@) ==> r is Ok,
{
    proof {
        reveal_strlit("send");
        reveal_strlit("balance");
    }
    if args.len() == 0 {
        return Err(BitcoinError::ParseError(String::from_str("Not enough parameters")));
    }
    let cmd = &args[0];
    if string_matches(cmd, "send") {
        proof {
            assert("send"@.len() == 4);
            assert("balance"@.len() == 7);
        }
        if args.len() < 3 {
            return Err(BitcoinError::ParseError(String::from_str("Not enough arguments")));
        }
        let address = args[2].clone();
        match parse_u64_dec(args[1].as_str()) {
            Some(amount) => Ok(CliCommand::Send { amount, address }),
            None => Err(BitcoinError::ParseError(String::from_str("Invalid amount"))),
        }
    } else if string_matches(cmd, "balance") {
        Ok(CliCommand::Balance)
    } else {
        let msg = String::from_str("Unknown command: ").concat(cmd.as_str());
        Err(BitcoinError::ParseError(msg))
    }
}

} // verus!
