//! Wire messages of the relay protocol.
//!
//! A client is greeted with `LOGIN:<id>` once its connection is registered,
//! and every line it sends is relayed to the other clients as
//! `MESSAGE:<id> <content>`. The identifier is the connection's numeric
//! ephemeral source port, printed in decimal.

use vstd::prelude::*;
use vstd::string::StringExecFns;

verus! {

/// The decimal digit character for a value in `0..10`.
pub open spec fn digit_char(d: int) -> char {
    if d == 0 {
        '0'
    } else if d == 1 {
        '1'
    } else if d == 2 {
        '2'
    } else if d == 3 {
        '3'
    } else if d == 4 {
        '4'
    } else if d == 5 {
        '5'
    } else if d == 6 {
        '6'
    } else if d == 7 {
        '7'
    } else if d == 8 {
        '8'
    } else {
        '9'
    }
}

/// The decimal representation of a non-negative integer, most significant
/// digit first, with no leading zeros (a single `'0'` for zero).
pub open spec fn dec_chars(n: int) -> Seq<char>
    recommends
        n >= 0,
    decreases n,
{
    if n < 10 {
        seq![digit_char(n)]
    } else {
        dec_chars(n / 10).push(digit_char(n % 10))
    }
}

/// The login notice sent once to a connection with identifier `id`.
pub open spec fn login_msg(id: u16) -> Seq<char> {
    "LOGIN:"@ + dec_chars(id as int)
}

/// The relayed form of a line `content` received from connection `id`.
pub open spec fn message_msg(id: u16, content: Seq<char>) -> Seq<char> {
    "MESSAGE:"@ + dec_chars(id as int) + " "@ + content
}

/// Appends one decimal digit character to `out`.
fn push_digit(d: u16, out: &mut String)
    requires
        d < 10,
    ensures
        final(out)@ == old(out)@ + seq![digit_char(d as int)],
{
    if d == 0 {
        proof {
            reveal_strlit("0");
            assert("0"@ =~= seq![digit_char(0)]);
        }
        out.append("0");
    } else if d == 1 {
        proof {
            reveal_strlit("1");
            assert("1"@ =~= seq![digit_char(1)]);
        }
        out.append("1");
    } else if d == 2 {
        proof {
            reveal_strlit("2");
            assert("2"@ =~= seq![digit_char(2)]);
        }
        out.append("2");
    } else if d == 3 {
        proof {
            reveal_strlit("3");
            assert("3"@ =~= seq![digit_char(3)]);
        }
        out.append("3");
    } else if d == 4 {
        proof {
            reveal_strlit("4");
            assert("4"@ =~= seq![digit_char(4)]);
        }
        out.append("4");
    } else if d == 5 {
        proof {
            reveal_strlit("5");
            assert("5"@ =~= seq![digit_char(5)]);
        }
        out.append("5");
    } else if d == 6 {
        proof {
            reveal_strlit("6");
            assert("6"@ =~= seq![digit_char(6)]);
        }
        out.append("6");
    } else if d == 7 {
        proof {
            reveal_strlit("7");
            assert("7"@ =~= seq![digit_char(7)]);
        }
        out.append("7");
    } else if d == 8 {
        proof {
            reveal_strlit("8");
            assert("8"@ =~= seq![digit_char(8)]);
        }
        out.append("8");
    } else {
        proof {
            reveal_strlit("9");
            assert("9"@ =~= seq![digit_char(9)]);
        }
        out.append("9");
    }
}

/// Appends the decimal representation of `n` to `out`.
fn push_decimal(n: u16, out: &mut String)
    ensures
        final(out)@ == old(out)@ + dec_chars(n as int),
    decreases n,
{
    if n >= 10 {
        push_decimal(n / 10, out);
    }
    push_digit(n % 10, out);
    proof {
        if n >= 10 {
            assert(old(out)@ + dec_chars(n as int / 10) + seq![digit_char(n as int % 10)] =~= old(
                out,
            )@ + dec_chars(n as int));
        } else {
            assert(old(out)@ + seq![digit_char(n as int)] =~= old(out)@ + dec_chars(n as int));
        }
    }
}

/// Builds the login notice `LOGIN:<port>` for a newly accepted connection.
pub fn build_login_msg(port: u16) -> (r: String)
    ensures
        r@ == login_msg(port),
{
    let mut s = String::new();
    s.append("LOGIN:");
    push_decimal(port, &mut s);
    proof {
        assert(s@ =~= login_msg(port));
    }
    s
}

/// Builds the relay line `MESSAGE:<port> <content>` broadcast to the
/// other connections when `port` sends `content`.
pub fn build_message_msg(port: u16, content: &str) -> (r: String)
    ensures
        r@ == message_msg(port, content@),
{
    let mut s = String::new();
    s.append("MESSAGE:");
    push_decimal(port, &mut s);
    s.append(" ");
    s.append(content);
    proof {
        assert(s@ =~= message_msg(port, content@));
    }
    s
}

} // verus!
