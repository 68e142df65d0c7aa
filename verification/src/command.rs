//! The typed commands the ledger engine consumes.
//!
//! The textual grammar, its parsing and the rendering of replies are the
//! transport's business; the engine receives one of these already-typed
//! values per request.

use vstd::prelude::*;

use crate::account::{id_text_value, is_canonical_id_text, AccountID, IdError};
use crate::text::{parse_u64, parse_u64_spec, NumError};

verus! {

/// One request against the repository. `Quit` and `Help` concern only the
/// session that issued them; the repository treats them as unknown.
#[derive(Copy, Clone, PartialEq, Eq, Structural, Debug)]
pub enum Command {
    NewBank,
    ChangeBank { id: u64 },
    RestoreBank { id: u64 },
    WhichBank,
    RegisterAccount { balance: u64 },
    GetBalance { id: AccountID },
    Deposit { id: AccountID, balance: u64 },
    Withdraw { id: AccountID, balance: u64 },
    Transfer { sender: AccountID, receiver: AccountID, amount: u64 },
    ListAccountOperations { id: AccountID },
    ListAllOperations,
    Quit,
    Help,
}

/// Why a line could not be turned into a typed command.
#[derive(Clone, PartialEq, Debug)]
pub enum ParseError {
    EmptyCommand,
    RequireArguments(Vec<String>),
    InvalidArgumentUint(String, NumError),
    InvalidArgumentAccountID(String, IdError),
    UnknownCommand,
}

/// Parses one named unsigned decimal argument, tagging a rejection with the
/// argument's name.
pub fn parse_argument_uint(name: &str, value: &str) -> (r: Result<u64, ParseError>)
    ensures
        match r {
            Ok(v) => parse_u64_spec(value@) == Ok::<u64, NumError>(v),
            Err(ParseError::InvalidArgumentUint(n, e)) => n@ == name@ && parse_u64_spec(value@)
                == Err::<u64, NumError>(e),
            Err(_) => false,
        },
{
    match parse_u64(value) {
        Ok(v) => Ok(v),
        Err(e) => Err(ParseError::InvalidArgumentUint(name.to_owned(), e)),
    }
}

/// Parses one named account-identifier argument, tagging a rejection with
/// the argument's name.
pub fn parse_argument_account_id(name: &str, value: &str) -> (r: Result<AccountID, ParseError>)
    ensures
        match r {
            Ok(id) => is_canonical_id_text(value@) && id.0 as int == id_text_value(value@),
            Err(ParseError::InvalidArgumentAccountID(n, e)) => n@ == name@ && e == IdError::Invalid
                && !is_canonical_id_text(value@),
            Err(_) => false,
        },
{
    match AccountID::parse_str(value) {
        Ok(id) => Ok(id),
        Err(e) => Err(ParseError::InvalidArgumentAccountID(name.to_owned(), e)),
    }
}

/// Whitespace, for splitting a command line into words.
pub open spec fn is_space(c: char) -> bool {
    c == ' ' || c == '\t' || c == '\r' || c == '\n'
}

/// The length of the leading word of `s`: the longest prefix without
/// whitespace.
pub open spec fn word_len(s: Seq<char>) -> int
    decreases s.len(),
{
    if s.len() == 0 {
        0
    } else if is_space(s[0]) {
        0
    } else {
        1 + word_len(s.skip(1))
    }
}

/// The leading word is never longer than the text.
proof fn lemma_word_len_bounds(s: Seq<char>)
    ensures
        0 <= word_len(s) <= s.len(),
    decreases s.len(),
{
    if s.len() > 0 && !is_space(s[0]) {
        lemma_word_len_bounds(s.skip(1));
    }
}

/// The leading word ends exactly at the first whitespace (or the end).
proof fn lemma_word_len_is(s: Seq<char>, k: int)
    requires
        0 <= k <= s.len(),
        forall|m: int| 0 <= m < k ==> !is_space(#[trigger] s[m]),
        k == s.len() || is_space(s[k]),
    ensures
        word_len(s) == k,
    decreases k,
{
    if k > 0 {
        let rest = s.skip(1);
        assert(forall|m: int| 0 <= m < k - 1 ==> rest[m] == s[m + 1]);
        assert(k - 1 == rest.len() || is_space(rest[k - 1]));
        lemma_word_len_is(rest, k - 1);
    }
}

/// The words of `s`, in order: maximal runs of non-whitespace characters.
pub open spec fn tokens_of(s: Seq<char>) -> Seq<Seq<char>>
    decreases s.len(),
    via tokens_of_decreases
{
    if s.len() == 0 {
        Seq::empty()
    } else if is_space(s[0]) {
        tokens_of(s.skip(1))
    } else {
        seq![s.take(word_len(s))] + tokens_of(s.skip(word_len(s)))
    }
}

#[via_fn]
proof fn tokens_of_decreases(s: Seq<char>) {
    if s.len() > 0 && !is_space(s[0]) {
        lemma_word_len_bounds(s);
        lemma_word_len_bounds(s.skip(1));
        assert(word_len(s) == 1 + word_len(s.skip(1)));
    }
}

/// The texts a sequence of owned strings holds.
pub open spec fn views_of(ts: Seq<String>) -> Seq<Seq<char>> {
    ts.map_values(|t: String| t@)
}

/// Splits a line into its whitespace-separated words.
pub fn tokenize(s: &str) -> (r: Vec<String>)
    ensures
        views_of(r@) == tokens_of(s@),
{
    let n = s.unicode_len();
    let mut out: Vec<String> = Vec::new();
    let mut pos: usize = 0;
    proof {
        assert(s@.skip(0) =~= s@);
        assert(views_of(out@) =~= Seq::<Seq<char>>::empty());
        assert(Seq::<Seq<char>>::empty() + tokens_of(s@) =~= tokens_of(s@));
    }
    while pos < n
        invariant
            0 <= pos <= n,
            n == s@.len(),
            tokens_of(s@) == views_of(out@) + tokens_of(s@.skip(pos as int)),
        decreases n - pos,
    {
        let c = s.get_char(pos);
        if c == ' ' || c == '\t' || c == '\r' || c == '\n' {
            proof {
                let rem = s@.skip(pos as int);
                assert(rem[0] == s@[pos as int]);
                assert(rem.skip(1) =~= s@.skip(pos as int + 1));
                assert(tokens_of(rem) == tokens_of(s@.skip(pos as int + 1)));
            }
            pos = pos + 1;
        } else {
            let start = pos;
            let mut end = pos;
            while end < n
                invariant
                    start <= end <= n,
                    n == s@.len(),
                    forall|m: int| start <= m < end ==> !is_space(#[trigger] s@[m]),
                ensures
                    start <= end <= n,
                    forall|m: int| start <= m < end ==> !is_space(#[trigger] s@[m]),
                    end == n || is_space(s@[end as int]),
                decreases n - end,
            {
                let e = s.get_char(end);
                if e == ' ' || e == '\t' || e == '\r' || e == '\n' {
                    break ;
                }
                end = end + 1;
            }
            let ghost out0 = out@;
            let word = s.substring_char(start, end).to_owned();
            out.push(word);
            proof {
                let rem = s@.skip(start as int);
                assert(forall|m: int| 0 <= m < end - start ==> rem[m] == s@[m + start]);
                assert(end - start == rem.len() || is_space(rem[end - start]));
                lemma_word_len_is(rem, end - start);
                assert(rem.take(end - start) =~= s@.subrange(start as int, end as int));
                assert(rem.skip(end - start) =~= s@.skip(end as int));
                assert(tokens_of(rem) == seq![rem.take(end - start)] + tokens_of(
                    s@.skip(end as int),
                ));
                assert(word@ == rem.take(end - start));
                assert(views_of(out@) =~= views_of(out0).push(word@));
                assert(views_of(out0).push(word@) + tokens_of(s@.skip(end as int)) =~= views_of(
                    out0,
                ) + tokens_of(rem));
            }
            pos = end;
        }
    }
    proof {
        assert(s@.skip(n as int) =~= Seq::<char>::empty());
        assert(views_of(out@) + tokens_of(s@.skip(n as int)) =~= views_of(out@));
    }
    out
}

/// Whether two texts hold the same characters.
fn str_eq(a: &str, b: &str) -> (r: bool)
    ensures
        r == (a@ == b@),
{
    let n = a.unicode_len();
    if n != b.unicode_len() {
        proof {
            assert(a@ != b@);
        }
        return false;
    }
    let mut i: usize = 0;
    while i < n
        invariant
            i <= n,
            n == a@.len(),
            n == b@.len(),
            forall|j: int| 0 <= j < i ==> a@[j] == b@[j],
        decreases n - i,
    {
        if !(a.get_char(i) == b.get_char(i)) {
            proof {
                assert(a@[i as int] != b@[i as int]);
            }
            return false;
        }
        i = i + 1;
    }
    proof {
        assert(a@ =~= b@);
    }
    true
}

/// What parsing a word sequence as a command must yield: the exact typed
/// command for every well-formed form, and the exact rejection otherwise —
/// missing arguments first, then each argument checked left to right.
pub open spec fn parse_outcome_matches(toks: Seq<Seq<char>>, r: Result<Command, ParseError>) -> bool {
    if toks.len() == 0 {
        r == Err::<Command, ParseError>(ParseError::EmptyCommand)
    } else {
        let kw = toks[0];
        if kw == "get_balance"@ || kw == "list_account_operations"@ || kw
            == "get_account_operations"@ {
            if toks.len() < 2 {
                r matches Err(ParseError::RequireArguments(a)) && views_of(a@) == seq![
                    "account_id"@,
                ]
            } else if !is_canonical_id_text(toks[1]) {
                r matches Err(ParseError::InvalidArgumentAccountID(n, e)) && n@ == "account_id"@
                    && e == IdError::Invalid
            } else if kw == "get_balance"@ {
                r matches Ok(Command::GetBalance { id }) && id.0 as int == id_text_value(toks[1])
            } else {
                r matches Ok(Command::ListAccountOperations { id }) && id.0 as int
                    == id_text_value(toks[1])
            }
        } else if kw == "register_account"@ || kw == "new_account"@ {
            if toks.len() < 2 {
                r matches Err(ParseError::RequireArguments(a)) && views_of(a@) == seq!["balance"@]
            } else {
                match parse_u64_spec(toks[1]) {
                    Ok(v) => r == Ok::<Command, ParseError>(Command::RegisterAccount { balance: v }),
                    Err(e) => r matches Err(ParseError::InvalidArgumentUint(n, e2)) && n@
                        == "balance"@ && e2 == e,
                }
            }
        } else if kw == "deposit"@ || kw == "withdraw"@ {
            if toks.len() < 3 {
                r matches Err(ParseError::RequireArguments(a)) && views_of(a@) == seq![
                    "account_id"@,
                    "amount"@,
                ]
            } else if !is_canonical_id_text(toks[1]) {
                r matches Err(ParseError::InvalidArgumentAccountID(n, e)) && n@ == "account_id"@
                    && e == IdError::Invalid
            } else {
                match parse_u64_spec(toks[2]) {
                    Err(e) => r matches Err(ParseError::InvalidArgumentUint(n, e2)) && n@
                        == "amount"@ && e2 == e,
                    Ok(v) => if kw == "deposit"@ {
                        r matches Ok(Command::Deposit { id, balance }) && id.0 as int
                            == id_text_value(toks[1]) && balance == v
                    } else {
                        r matches Ok(Command::Withdraw { id, balance }) && id.0 as int
                            == id_text_value(toks[1]) && balance == v
                    },
                }
            }
        } else if kw == "transfer"@ {
            if toks.len() < 4 {
                r matches Err(ParseError::RequireArguments(a)) && views_of(a@) == seq![
                    "sender_account_id"@,
                    "receiver_account_id"@,
                    "amount"@,
                ]
            } else if !is_canonical_id_text(toks[1]) {
                r matches Err(ParseError::InvalidArgumentAccountID(n, e)) && n@
                    == "sender_account_id"@ && e == IdError::Invalid
            } else if !is_canonical_id_text(toks[2]) {
                r matches Err(ParseError::InvalidArgumentAccountID(n, e)) && n@
                    == "receiver_account_id"@ && e == IdError::Invalid
            } else {
                match parse_u64_spec(toks[3]) {
                    Err(e) => r matches Err(ParseError::InvalidArgumentUint(n, e2)) && n@
                        == "amount"@ && e2 == e,
                    Ok(v) => r matches Ok(Command::Transfer { sender, receiver, amount })
                        && sender.0 as int == id_text_value(toks[1]) && receiver.0 as int
                        == id_text_value(toks[2]) && amount == v,
                }
            }
        } else if kw == "change_bank"@ || kw == "restore_bank"@ {
            if toks.len() < 2 {
                r matches Err(ParseError::RequireArguments(a)) && views_of(a@) == seq!["bank_id"@]
            } else {
                match parse_u64_spec(toks[1]) {
                    Err(e) => r matches Err(ParseError::InvalidArgumentUint(n, e2)) && n@
                        == "bank_id"@ && e2 == e,
                    Ok(v) => if kw == "change_bank"@ {
                        r == Ok::<Command, ParseError>(Command::ChangeBank { id: v })
                    } else {
                        r == Ok::<Command, ParseError>(Command::RestoreBank { id: v })
                    },
                }
            }
        } else if kw == "new_bank"@ {
            r == Ok::<Command, ParseError>(Command::NewBank)
        } else if kw == "which_bank"@ {
            r == Ok::<Command, ParseError>(Command::WhichBank)
        } else if kw == "list_all_operations"@ || kw == "get_all_operations"@ {
            r == Ok::<Command, ParseError>(Command::ListAllOperations)
        } else if kw == "quit"@ {
            r == Ok::<Command, ParseError>(Command::Quit)
        } else if kw == "help"@ {
            r == Ok::<Command, ParseError>(Command::Help)
        } else {
            r == Err::<Command, ParseError>(ParseError::UnknownCommand)
        }
    }
}

/// Parses one line into a typed command: the line is split into words, the
/// first word names the command, the rest are its arguments, checked left to
/// right.
pub fn parse_command(line: &str) -> (r: Result<Command, ParseError>)
    ensures
        parse_outcome_matches(tokens_of(line@), r),
{
    let tokens = tokenize(line);
    let ghost toks = tokens_of(line@);
    if tokens.len() == 0 {
        return Err(ParseError::EmptyCommand);
    }
    let kw: &str = tokens[0].as_str();
    proof {
        assert(kw@ == toks[0]);
    }
    if str_eq(kw, "get_balance") || str_eq(kw, "list_account_operations") || str_eq(
        kw,
        "get_account_operations",
    ) {
        if tokens.len() < 2 {
            let mut args: Vec<String> = Vec::new();
            args.push("account_id".to_owned());
            proof {
                assert(views_of(args@) =~= seq!["account_id"@]);
            }
            return Err(ParseError::RequireArguments(args));
        }
        proof {
            assert(tokens@[1]@ == toks[1]);
        }
        let id = match parse_argument_account_id("account_id", tokens[1].as_str()) {
            Ok(id) => id,
            Err(e) => {
                return Err(e);
            },
        };
        if str_eq(kw, "get_balance") {
            return Ok(Command::GetBalance { id });
        }
        return Ok(Command::ListAccountOperations { id });
    }
    if str_eq(kw, "register_account") || str_eq(kw, "new_account") {
        if tokens.len() < 2 {
            let mut args: Vec<String> = Vec::new();
            args.push("balance".to_owned());
            proof {
                assert(views_of(args@) =~= seq!["balance"@]);
            }
            return Err(ParseError::RequireArguments(args));
        }
        proof {
            assert(tokens@[1]@ == toks[1]);
        }
        let balance = match parse_argument_uint("balance", tokens[1].as_str()) {
            Ok(v) => v,
            Err(e) => {
                return Err(e);
            },
        };
        return Ok(Command::RegisterAccount { balance });
    }
    if str_eq(kw, "deposit") || str_eq(kw, "withdraw") {
        if tokens.len() < 3 {
            let mut args: Vec<String> = Vec::new();
            args.push("account_id".to_owned());
            args.push("amount".to_owned());
            proof {
                assert(views_of(args@) =~= seq!["account_id"@, "amount"@]);
            }
            return Err(ParseError::RequireArguments(args));
        }
        proof {
            assert(tokens@[1]@ == toks[1]);
            assert(tokens@[2]@ == toks[2]);
        }
        let id = match parse_argument_account_id("account_id", tokens[1].as_str()) {
            Ok(id) => id,
            Err(e) => {
                return Err(e);
            },
        };
        let balance = match parse_argument_uint("amount", tokens[2].as_str()) {
            Ok(v) => v,
            Err(e) => {
                return Err(e);
            },
        };
        if str_eq(kw, "deposit") {
            return Ok(Command::Deposit { id, balance });
        }
        return Ok(Command::Withdraw { id, balance });
    }
    if str_eq(kw, "transfer") {
        if tokens.len() < 4 {
            let mut args: Vec<String> = Vec::new();
            args.push("sender_account_id".to_owned());
            args.push("receiver_account_id".to_owned());
            args.push("amount".to_owned());
            proof {
                assert(views_of(args@) =~= seq![
                    "sender_account_id"@,
                    "receiver_account_id"@,
                    "amount"@,
                ]);
            }
            return Err(ParseError::RequireArguments(args));
        }
        proof {
            assert(tokens@[1]@ == toks[1]);
            assert(tokens@[2]@ == toks[2]);
            assert(tokens@[3]@ == toks[3]);
        }
        let sender = match parse_argument_account_id("sender_account_id", tokens[1].as_str()) {
            Ok(id) => id,
            Err(e) => {
                return Err(e);
            },
        };
        let receiver = match parse_argument_account_id("receiver_account_id", tokens[2].as_str()) {
            Ok(id) => id,
            Err(e) => {
                return Err(e);
            },
        };
        let amount = match parse_argument_uint("amount", tokens[3].as_str()) {
            Ok(v) => v,
            Err(e) => {
                return Err(e);
            },
        };
        return Ok(Command::Transfer { sender, receiver, amount });
    }
    if str_eq(kw, "change_bank") || str_eq(kw, "restore_bank") {
        if tokens.len() < 2 {
            let mut args: Vec<String> = Vec::new();
            args.push("bank_id".to_owned());
            proof {
                assert(views_of(args@) =~= seq!["bank_id"@]);
            }
            return Err(ParseError::RequireArguments(args));
        }
        proof {
            assert(tokens@[1]@ == toks[1]);
        }
        let id = match parse_argument_uint("bank_id", tokens[1].as_str()) {
            Ok(v) => v,
            Err(e) => {
                return Err(e);
            },
        };
        if str_eq(kw, "change_bank") {
            return Ok(Command::ChangeBank { id });
        }
        return Ok(Command::RestoreBank { id });
    }
    if str_eq(kw, "new_bank") {
        return Ok(Command::NewBank);
    }
    if str_eq(kw, "which_bank") {
        return Ok(Command::WhichBank);
    }
    if str_eq(kw, "list_all_operations") || str_eq(kw, "get_all_operations") {
        return Ok(Command::ListAllOperations);
    }
    if str_eq(kw, "quit") {
        return Ok(Command::Quit);
    }
    if str_eq(kw, "help") {
        return Ok(Command::Help);
    }
    Err(ParseError::UnknownCommand)
}

} // verus!
