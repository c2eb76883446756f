//! String-level logic of the session shell: numeric address parsing, the
//! interpretation order of breakpoint specs, and command tokenization.

use vstd::prelude::*;
use vstd::string::StrSliceExecFns;

verus! {

/// `c` is a decimal digit.
pub open spec fn dec_digit(c: char) -> bool {
    48 <= c as u32 <= 57
}

/// Value of the decimal digit `c`.
pub open spec fn dec_val(c: char) -> int {
    c as u32 - 48
}

/// `c` is a hexadecimal digit, in either case.
pub open spec fn hex_digit(c: char) -> bool {
    dec_digit(c) || (97 <= c as u32 <= 102) || (65 <= c as u32 <= 70)
}

/// Value of the hexadecimal digit `c`.
pub open spec fn hex_val(c: char) -> int {
    if dec_digit(c) {
        c as u32 - 48
    } else if 97 <= c as u32 <= 102 {
        c as u32 - 87
    } else {
        c as u32 - 55
    }
}

/// Every character of `s` is a decimal digit.
pub open spec fn all_dec(s: Seq<char>) -> bool {
    forall|i: int| 0 <= i < s.len() ==> dec_digit(#[trigger] s[i])
}

/// Every character of `s` is a hexadecimal digit.
pub open spec fn all_hex(s: Seq<char>) -> bool {
    forall|i: int| 0 <= i < s.len() ==> hex_digit(#[trigger] s[i])
}

/// The number written in decimal as `s`.
pub open spec fn dec_value(s: Seq<char>) -> int
    decreases s.len(),
{
    if s.len() == 0 {
        0
    } else {
        dec_value(s.drop_last()) * 10 + dec_val(s.last())
    }
}

/// The number written in hexadecimal as `s`.
pub open spec fn hex_value(s: Seq<char>) -> int
    decreases s.len(),
{
    if s.len() == 0 {
        0
    } else {
        hex_value(s.drop_last()) * 16 + hex_val(s.last())
    }
}

/// A decimal numeral never shrinks as it grows to the right: the value of
/// the first `j` digits is at least the value of the first `i`, and both
/// are non-negative.
proof fn lemma_dec_prefix_mono(s: Seq<char>, i: int, j: int)
    requires
        0 <= i <= j <= s.len(),
        all_dec(s),
    ensures
        0 <= dec_value(s.subrange(0, i)) <= dec_value(s.subrange(0, j)),
    decreases j - i,
{
    if i == j {
        lemma_dec_nonneg(s.subrange(0, i));
    } else {
        lemma_dec_prefix_mono(s, i, j - 1);
        let pre = s.subrange(0, j);
        assert(pre.drop_last() =~= s.subrange(0, j - 1));
        assert(dec_digit(s[j - 1]));
        assert(dec_value(pre) == dec_value(s.subrange(0, j - 1)) * 10 + dec_val(s[j - 1]));
    }
}

/// A string of decimal digits has a non-negative value.
proof fn lemma_dec_nonneg(s: Seq<char>)
    requires
        all_dec(s),
    ensures
        dec_value(s) >= 0,
    decreases s.len(),
{
    if s.len() > 0 {
        assert(all_dec(s.drop_last())) by {
            assert(forall|i: int|
                0 <= i < s.len() - 1 ==> #[trigger] s.drop_last()[i] == s[i]);
        }
        lemma_dec_nonneg(s.drop_last());
    }
}

/// A hexadecimal numeral never shrinks as it grows to the right.
proof fn lemma_hex_prefix_mono(s: Seq<char>, i: int, j: int)
    requires
        0 <= i <= j <= s.len(),
        all_hex(s),
    ensures
        0 <= hex_value(s.subrange(0, i)) <= hex_value(s.subrange(0, j)),
    decreases j - i,
{
    if i == j {
        lemma_hex_nonneg(s.subrange(0, i));
    } else {
        lemma_hex_prefix_mono(s, i, j - 1);
        let pre = s.subrange(0, j);
        assert(pre.drop_last() =~= s.subrange(0, j - 1));
        assert(hex_digit(s[j - 1]));
        assert(hex_value(pre) == hex_value(s.subrange(0, j - 1)) * 16 + hex_val(s[j - 1]));
    }
}

/// A string of hexadecimal digits has a non-negative value.
proof fn lemma_hex_nonneg(s: Seq<char>)
    requires
        all_hex(s),
    ensures
        hex_value(s) >= 0,
    decreases s.len(),
{
    if s.len() > 0 {
        assert(all_hex(s.drop_last())) by {
            assert(forall|i: int|
                0 <= i < s.len() - 1 ==> #[trigger] s.drop_last()[i] == s[i]);
        }
        lemma_hex_nonneg(s.drop_last());
    }
}

/// Whether two string slices hold the same characters.
pub fn str_eq(a: &str, b: &str) -> (r: bool)
    ensures
        r == (a@ == b@),
{
    let n = a.unicode_len();
    if b.unicode_len() != n {
        return false;
    }
    for i in 0..n
        invariant
            n == a@.len(),
            n == b@.len(),
            forall|j: int| 0 <= j < i ==> a@[j] == b@[j],
    {
        if a.get_char(i) != b.get_char(i) {
            return false;
        }
    }
    proof {
        assert(a@ =~= b@);
    }
    true
}

/// Parses `s` as a decimal number.  Yields a value exactly when `s` is
/// non-empty, wholly decimal digits, and in range.
pub fn parse_decimal(s: &str) -> (r: Option<usize>)
    ensures
        r is Some <==> s@.len() > 0 && all_dec(s@) && dec_value(s@) <= usize::MAX,
        r matches Some(v) ==> v == dec_value(s@),
{
    let n = s.unicode_len();
    if n == 0 {
        return None;
    }
    let mut acc: usize = 0;
    for i in 0..n
        invariant
            n == s@.len(),
            all_dec(s@.subrange(0, i as int)),
            acc == dec_value(s@.subrange(0, i as int)),
    {
        let c = s.get_char(i);
        let v = c as u32;
        if v < 48 || v > 57 {
            return None;
        }
        let d = (v - 48) as usize;
        proof {
            assert(s@.subrange(0, i + 1).drop_last() =~= s@.subrange(0, i as int));
            assert(all_dec(s@.subrange(0, i + 1)));
        }
        let hi = match acc.checked_mul(10) {
            Some(x) => x,
            None => {
                proof {
                    overflow_dec(s@, i as int);
                }
                return None;
            },
        };
        acc = match hi.checked_add(d) {
            Some(y) => y,
            None => {
                proof {
                    overflow_dec(s@, i as int);
                }
                return None;
            },
        };
    }
    proof {
        assert(s@.subrange(0, n as int) =~= s@);
    }
    Some(acc)
}

/// If the digits seen so far already overflow, the whole numeral does.
proof fn overflow_dec(s: Seq<char>, i: int)
    requires
        0 <= i < s.len(),
        all_dec(s.subrange(0, i + 1)),
        dec_value(s.subrange(0, i + 1)) > usize::MAX,
    ensures
        !(s.len() > 0 && all_dec(s) && dec_value(s) <= usize::MAX),
{
    if all_dec(s) {
        lemma_dec_prefix_mono(s, i + 1, s.len() as int);
        assert(s.subrange(0, s.len() as int) =~= s);
    }
}

/// Parses `s` as a hexadecimal number starting at character `from`.
/// Yields a value exactly when at least one digit follows `from`, every
/// character from there on is a hexadecimal digit, and the value is in
/// range.
fn parse_hex_from(s: &str, from: usize) -> (r: Option<usize>)
    requires
        from <= s@.len(),
    ensures
        r is Some <==> {
            let body = s@.subrange(from as int, s@.len() as int);
            body.len() > 0 && all_hex(body) && hex_value(body) <= usize::MAX
        },
        r matches Some(v) ==> v == hex_value(s@.subrange(from as int, s@.len() as int)),
{
    let n = s.unicode_len();
    if from == n {
        return None;
    }
    let ghost body = s@.subrange(from as int, s@.len() as int);
    let mut acc: usize = 0;
    for i in from..n
        invariant
            n == s@.len(),
            from <= i <= n,
            all_hex(s@.subrange(from as int, i as int)),
            acc == hex_value(s@.subrange(from as int, i as int)),
            body == s@.subrange(from as int, s@.len() as int),
    {
        let c = s.get_char(i);
        let v = c as u32;
        let d: usize = if v >= 48 && v <= 57 {
            (v - 48) as usize
        } else if v >= 97 && v <= 102 {
            (v - 87) as usize
        } else if v >= 65 && v <= 70 {
            (v - 55) as usize
        } else {
            proof {
                assert(!hex_digit(s@[i as int]));
                assert(body[i - from] == s@[i as int]);
            }
            return None;
        };
        proof {
            assert(s@.subrange(from as int, i + 1).drop_last() =~= s@.subrange(
                from as int,
                i as int,
            ));
            assert(s@.subrange(from as int, i + 1).last() == s@[i as int]);
            assert(all_hex(s@.subrange(from as int, i + 1)));
        }
        let hi = match acc.checked_mul(16) {
            Some(x) => x,
            None => {
                proof {
                    overflow_hex(s@, from as int, i as int);
                }
                return None;
            },
        };
        acc = match hi.checked_add(d) {
            Some(y) => y,
            None => {
                proof {
                    overflow_hex(s@, from as int, i as int);
                }
                return None;
            },
        };
    }
    Some(acc)
}

/// If the hexadecimal digits seen so far already overflow, the whole
/// numeral does.
proof fn overflow_hex(s: Seq<char>, from: int, i: int)
    requires
        0 <= from <= i < s.len(),
        all_hex(s.subrange(from, i + 1)),
        hex_value(s.subrange(from, i + 1)) > usize::MAX,
    ensures
        !(all_hex(s.subrange(from, s.len() as int)) && hex_value(
            s.subrange(from, s.len() as int),
        ) <= usize::MAX),
{
    let body = s.subrange(from, s.len() as int);
    if all_hex(body) {
        assert(forall|k: int|
            from <= k < s.len() ==> #[trigger] s[k] == body[k - from] && hex_digit(s[k]));
        lemma_hex_prefix_mono(body, i + 1 - from, body.len() as int);
        assert(body.subrange(0, i + 1 - from) =~= s.subrange(from, i + 1));
        assert(body.subrange(0, body.len() as int) =~= body);
    }
}

/// The numeral part of a hexadecimal address string: a leading `0x` or
/// `0X` is stripped, anything else is taken whole.
pub open spec fn hex_body(s: Seq<char>) -> Seq<char> {
    if s.len() >= 2 && s[0] == '0' && (s[1] == 'x' || s[1] == 'X') {
        s.subrange(2, s.len() as int)
    } else {
        s
    }
}

/// Parses a literal hexadecimal address, with or without a `0x` prefix.
pub fn parse_address(s: &str) -> (r: Option<usize>)
    ensures
        r is Some <==> {
            let body = hex_body(s@);
            body.len() > 0 && all_hex(body) && hex_value(body) <= usize::MAX
        },
        r matches Some(v) ==> v == hex_value(hex_body(s@)),
{
    let n = s.unicode_len();
    let from: usize = if n >= 2 && s.get_char(0) == '0' && (s.get_char(1) == 'x' || s.get_char(1)
        == 'X') {
        2
    } else {
        0
    };
    proof {
        if from == 2 {
            assert(hex_body(s@) =~= s@.subrange(2, s@.len() as int));
        } else {
            assert(hex_body(s@) =~= s@.subrange(0, s@.len() as int));
        }
    }
    parse_hex_from(s, from)
}

/// Where a breakpoint spec resolves to, given the resolver's answers.
/// Resolution order: a `*`-prefixed literal address wins outright; a
/// wholly numeric spec is a source line, resolved through the line
/// answer, falling back to the function answer; anything else is a
/// function name, resolved through the function answer.
pub open spec fn spec_interpret(
    t: Seq<char>,
    line_addr: Option<usize>,
    func_addr: Option<usize>,
) -> Option<usize> {
    if t.len() > 0 && t[0] == '*' {
        let body = hex_body(t.subrange(1, t.len() as int));
        if body.len() > 0 && all_hex(body) && hex_value(body) <= usize::MAX {
            Some(hex_value(body) as usize)
        } else {
            None
        }
    } else if t.len() > 0 && all_dec(t) && dec_value(t) <= usize::MAX {
        if line_addr is Some {
            line_addr
        } else {
            func_addr
        }
    } else {
        func_addr
    }
}

/// Interprets one breakpoint spec token.  `line_addr` is the resolver's
/// answer for the token read as a source line; `func_addr` its answer for
/// the token read as a function name.  The first successful
/// interpretation — literal address, then line, then function — wins.
pub fn interpret_break_token(
    token: &str,
    line_addr: Option<usize>,
    func_addr: Option<usize>,
) -> (r: Option<usize>)
    ensures
        r == spec_interpret(token@, line_addr, func_addr),
{
    let n = token.unicode_len();
    if n > 0 && token.get_char(0) == '*' {
        let rest = token.substring_char(1, n);
        proof {
            assert(rest@ =~= token@.subrange(1, token@.len() as int));
        }
        parse_address(rest)
    } else {
        match parse_decimal(token) {
            Some(_) => {
                if line_addr.is_some() {
                    line_addr
                } else {
                    func_addr
                }
            },
            None => func_addr,
        }
    }
}

/// One command of the session shell.
#[derive(Debug)]
pub enum DebuggerCommand {
    /// Run (or restart) the target with the given arguments.
    Run(Vec<String>),
    /// Resume the parked process.
    Continue,
    /// Print the call stack of the parked process.
    BackTrace,
    /// End the session.
    Quit,
    /// Set a breakpoint at the given line, `*address`, or function spec.
    Break(String),
}

/// Parses one tokenized input line into a command.  Commands are the full
/// words `run`, `continue`, `backtrace`, `break` and `quit`, each with a
/// short alias (`r`, `c`, `bt`, `b`, `q`); `run` takes the remaining
/// tokens as target arguments and `break` takes exactly the next token as
/// its spec.  Anything else is no command.
pub fn parse_command(tokens: &Vec<String>) -> (r: Option<DebuggerCommand>)
    ensures
        tokens@.len() == 0 ==> r is None,
        tokens@.len() > 0 ==> {
            let head = tokens@[0]@;
            &&& ((head == "run"@ || head == "r"@) ==> (r matches Some(DebuggerCommand::Run(args))
                && args@ == tokens@.subrange(1, tokens@.len() as int)))
            &&& ((head == "continue"@ || head == "c"@) ==> r == Some(DebuggerCommand::Continue))
            &&& ((head == "backtrace"@ || head == "bt"@) ==> r == Some(DebuggerCommand::BackTrace))
            &&& ((head == "quit"@ || head == "q"@) ==> r == Some(DebuggerCommand::Quit))
            &&& ((head == "break"@ || head == "b"@) ==> (tokens@.len() >= 2 ==> r == Some(
                DebuggerCommand::Break(tokens@[1]),
            )) && (tokens@.len() < 2 ==> r is None))
            &&& (!(head == "run"@ || head == "r"@ || head == "continue"@ || head == "c"@ || head
                == "backtrace"@ || head == "bt"@ || head == "quit"@ || head == "q"@ || head
                == "break"@ || head == "b"@) ==> r is None)
        },
{
    proof {
        reveal_strlit("run");
        reveal_strlit("r");
        reveal_strlit("continue");
        reveal_strlit("c");
        reveal_strlit("backtrace");
        reveal_strlit("bt");
        reveal_strlit("quit");
        reveal_strlit("q");
        reveal_strlit("break");
        reveal_strlit("b");
        assert("run"@.len() == 3 && "continue"@.len() == 8 && "backtrace"@.len() == 9
            && "quit"@.len() == 4 && "break"@.len() == 5 && "bt"@.len() == 2);
        assert("r"@.len() == 1 && "c"@.len() == 1 && "q"@.len() == 1 && "b"@.len() == 1);
        assert("r"@[0] == 'r' && "c"@[0] == 'c' && "q"@[0] == 'q' && "b"@[0] == 'b');
    }
    if tokens.len() == 0 {
        return None;
    }
    let head = tokens[0].as_str();
    if str_eq(head, "run") || str_eq(head, "r") {
        let mut args: Vec<String> = Vec::new();
        let n = tokens.len();
        for i in 1..n
            invariant
                1 <= i <= n,
                n == tokens@.len(),
                args@ == tokens@.subrange(1, i as int),
        {
            args.push(tokens[i].clone());
            proof {
                assert(tokens@.subrange(1, i + 1) =~= tokens@.subrange(1, i as int).push(
                    tokens@[i as int],
                ));
            }
        }
        proof {
            assert(tokens@.subrange(1, n as int) == args@);
        }
        Some(DebuggerCommand::Run(args))
    } else if str_eq(head, "continue") || str_eq(head, "c") {
        Some(DebuggerCommand::Continue)
    } else if str_eq(head, "backtrace") || str_eq(head, "bt") {
        Some(DebuggerCommand::BackTrace)
    } else if str_eq(head, "quit") || str_eq(head, "q") {
        Some(DebuggerCommand::Quit)
    } else if str_eq(head, "break") || str_eq(head, "b") {
        if tokens.len() >= 2 {
            Some(DebuggerCommand::Break(tokens[1].clone()))
        } else {
            None
        }
    } else {
        None
    }
}

} // verus!
