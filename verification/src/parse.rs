//! The argument-list mini-language.
//!
//! A command's arguments can be written as one string: arguments are
//! separated by spaces, a double-quoted stretch is one argument (spaces and
//! all), and a set of shell-meaningful characters is reserved outside quotes.
//! [`spec_parse`] is the grammar; [`parse_unquoted`] is the parser, proved to
//! decide exactly that grammar.

use vstd::prelude::*;
use vstd::string::StrSliceExecFns;

verus! {

/// Relies on `String::push`: appends exactly the given character.
pub assume_specification[ String::push ](s: &mut String, c: char)
    ensures
        final(s)@ == old(s)@.push(c),
;

/// Characters reserved outside quotes: each means something to a shell, so a
/// string holding one bare is rejected rather than silently reinterpreted.
pub open spec fn spec_reserved(c: char) -> bool {
    ||| c == '~'
    ||| c == '`'
    ||| c == '#'
    ||| c == '$'
    ||| c == '&'
    ||| c == '*'
    ||| c == '('
    ||| c == ')'
    ||| c == '\\'
    ||| c == '|'
    ||| c == '['
    ||| c == ']'
    ||| c == '{'
    ||| c == '}'
    ||| c == ';'
    ||| c == '\''
    ||| c == '"'
    ||| c == '<'
    ||| c == '>'
    ||| c == '/'
    ||| c == '?'
    ||| c == '!'
}

/// Whether a character is reserved; see [`spec_reserved`].
#[verifier::when_used_as_spec(spec_reserved)]
pub fn is_reserved(c: char) -> (r: bool)
    ensures
        r == spec_reserved(c),
{
    match c {
        '~' | '`' | '#' | '$' | '&' | '*' | '(' | ')' | '\\' | '|' | '[' | ']' | '{' | '}' | ';'
            | '\'' | '"' | '<' | '>' | '/' | '?' | '!' => true,
        _ => false,
    }
}

/// Why a string fails to parse.
pub enum ParseFault {
    /// A quote opened in the middle of an argument.
    MidArgQuote,
    /// A quote never closed.
    UnterminatedQuote,
    /// A reserved character outside quotes.
    Reserved,
}

/// The message the parser reports for each fault.
pub open spec fn fault_message(f: ParseFault) -> Seq<char> {
    match f {
        ParseFault::MidArgQuote => "Found ' in the middle of arg"@,
        ParseFault::UnterminatedQuote => "Failed to find matching '"@,
        ParseFault::Reserved => "Reserved character"@,
    }
}

/// Reading a quoted stretch from just after its opening quote: the content up
/// to the first quote, and how many characters were consumed (content plus
/// the closing quote). No quote at all is a fault.
pub open spec fn spec_parse_quoted(t: Seq<char>) -> Result<(Seq<char>, int), ()>
    decreases t.len(),
{
    if t.len() == 0 {
        Err(())
    } else if t[0] == '"' {
        Ok((Seq::empty(), 1))
    } else {
        match spec_parse_quoted(t.skip(1)) {
            Ok((content, j)) => Ok((seq![t[0]] + content, j + 1)),
            Err(()) => Err(()),
        }
    }
}

/// A successfully read quoted stretch consumes at least the closing quote and
/// at most the whole rest, and its content is exactly what stood before the
/// first quote.
pub proof fn lemma_parse_quoted_shape(t: Seq<char>)
    ensures
        spec_parse_quoted(t) matches Ok((content, j)) ==> 1 <= j <= t.len() && content == t.take(
            j - 1,
        ) && t[j - 1] == '"' && (forall|p: int| 0 <= p < j - 1 ==> t[p] != '"'),
    decreases t.len(),
{
    if t.len() > 0 && t[0] != '"' {
        lemma_parse_quoted_shape(t.skip(1));
        if spec_parse_quoted(t) is Ok {
            let (content, j) = spec_parse_quoted(t)->Ok_0;
            let (content1, j1) = spec_parse_quoted(t.skip(1))->Ok_0;
            assert(content =~= t.take(j - 1)) by {
                assert(content1 == t.skip(1).take(j1 - 1));
            }
            assert forall|p: int| 0 <= p < j - 1 implies t[p] != '"' by {
                if p > 0 {
                    assert(t.skip(1)[p - 1] != '"');
                }
            }
        }
    }
}

/// No quote anywhere means the quoted stretch never closes.
pub proof fn lemma_parse_quoted_none(t: Seq<char>)
    requires
        forall|p: int| 0 <= p < t.len() ==> t[p] != '"',
    ensures
        spec_parse_quoted(t) is Err,
    decreases t.len(),
{
    if t.len() > 0 {
        assert(forall|p: int| 0 <= p < t.skip(1).len() ==> t.skip(1)[p] == t[p + 1]);
        lemma_parse_quoted_none(t.skip(1));
    }
}

/// The first quote closes the stretch there.
pub proof fn lemma_parse_quoted_at(t: Seq<char>, k: int)
    requires
        0 <= k < t.len(),
        t[k] == '"',
        forall|p: int| 0 <= p < k ==> t[p] != '"',
    ensures
        spec_parse_quoted(t) == Ok::<(Seq<char>, int), ()>((t.take(k), k + 1)),
    decreases k,
{
    if k > 0 {
        assert(forall|p: int| 0 <= p < k - 1 ==> t.skip(1)[p] == t[p + 1]);
        lemma_parse_quoted_at(t.skip(1), k - 1);
        assert(seq![t[0]] + t.skip(1).take(k - 1) =~= t.take(k));
    } else {
        assert(t.take(0) =~= Seq::<char>::empty());
    }
}

/// The grammar: arguments separated by spaces, quoted stretches taken whole,
/// reserved characters refused. `cur` is the argument being accumulated and
/// `acc` the arguments finished so far.
pub open spec fn spec_parse(s: Seq<char>, cur: Seq<char>, acc: Seq<Seq<char>>) -> Result<
    Seq<Seq<char>>,
    ParseFault,
>
    decreases s.len(),
    via spec_parse_decreases
{
    if s.len() == 0 {
        if cur.len() > 0 {
            Ok(acc.push(cur))
        } else {
            Ok(acc)
        }
    } else {
        let c = s[0];
        if c == '"' {
            if cur.len() != 0 {
                Err(ParseFault::MidArgQuote)
            } else {
                match spec_parse_quoted(s.skip(1)) {
                    Ok((content, j)) => spec_parse(s.skip(1 + j), Seq::empty(), acc.push(content)),
                    Err(()) => Err(ParseFault::UnterminatedQuote),
                }
            }
        } else if c == ' ' {
            spec_parse(
                s.skip(1),
                Seq::empty(),
                if cur.len() > 0 {
                    acc.push(cur)
                } else {
                    acc
                },
            )
        } else if spec_reserved(c) {
            Err(ParseFault::Reserved)
        } else {
            spec_parse(s.skip(1), cur.push(c), acc)
        }
    }
}

#[via_fn]
proof fn spec_parse_decreases(s: Seq<char>, cur: Seq<char>, acc: Seq<Seq<char>>) {
    if s.len() > 0 && s[0] == '"' && cur.len() == 0 {
        lemma_parse_quoted_shape(s.skip(1));
    }
}

/// The whole string as an argument list.
pub open spec fn spec_parse_args(s: Seq<char>) -> Result<Seq<Seq<char>>, ParseFault> {
    spec_parse(s, Seq::empty(), Seq::empty())
}

/// The arguments as sequences of characters.
pub open spec fn string_views(v: Seq<String>) -> Seq<Seq<char>> {
    v.map_values(|s: String| s@)
}

/// Read a quoted stretch of `string` beginning at `start` (just after the
/// opening quote): the content before the closing quote, and the index just
/// after it. Fails when no quote follows.
pub fn parse_quoted(string: &str, start: usize) -> (r: Result<(String, usize), &'static str>)
    requires
        start <= string@.len(),
    ensures
        match spec_parse_quoted(string@.skip(start as int)) {
            Ok((content, j)) => r matches Ok(pair) && pair.0@ == content && pair.1 == start + j
                && pair.1 <= string@.len(),
            Err(()) => r matches Err(m) && m@ == fault_message(ParseFault::UnterminatedQuote),
        },
{
    let n = string.unicode_len();
    let mut build = String::new();
    let mut i = start;
    while i < n
        invariant
            n == string@.len(),
            start <= i <= n,
            forall|p: int| start <= p < i ==> string@[p] != '"',
            build@ == string@.subrange(start as int, i as int),
        decreases n - i,
    {
        let c = string.get_char(i);
        if c == '"' {
            proof {
                let t = string@.skip(start as int);
                assert(forall|p: int| 0 <= p < i - start ==> t[p] == string@[start + p]);
                lemma_parse_quoted_at(t, i - start);
                assert(t.take(i - start) =~= string@.subrange(start as int, i as int));
            }
            return Ok((build, i + 1));
        }
        build.push(c);
        proof {
            assert(build@ =~= string@.subrange(start as int, i as int + 1));
        }
        i = i + 1;
    }
    proof {
        let t = string@.skip(start as int);
        assert(forall|p: int| 0 <= p < t.len() ==> t[p] == string@[start + p]);
        lemma_parse_quoted_none(t);
    }
    Err("Failed to find matching '")
}

/// Parse a whole argument string; see [`spec_parse`] for the grammar. Either
/// every argument, in order, or the grammar's fault with its message.
pub fn parse_unquoted(string: &str) -> (r: Result<Vec<String>, &'static str>)
    ensures
        r is Ok <==> spec_parse_args(string@) is Ok,
        r matches Ok(v) ==> string_views(v@) == spec_parse_args(string@)->Ok_0,
        r matches Err(m) ==> spec_parse_args(string@) matches Err(f) && m@ == fault_message(f),
{
    let n = string.unicode_len();
    let mut args: Vec<String> = Vec::new();
    let mut cur = String::new();
    let mut i: usize = 0;
    proof {
        assert(string@.skip(0) =~= string@);
        assert(string_views(args@) =~= Seq::<Seq<char>>::empty());
    }
    while i < n
        invariant
            n == string@.len(),
            i <= n,
            spec_parse(string@.skip(i as int), cur@, string_views(args@)) == spec_parse_args(
                string@,
            ),
        decreases n - i,
    {
        let ghost s_i = string@.skip(i as int);
        proof {
            assert(s_i[0] == string@[i as int]);
            assert(s_i.skip(1) =~= string@.skip(i as int + 1));
        }
        let c = string.get_char(i);
        if c == '"' {
            if !cur.as_str().is_empty() {
                return Err("Found ' in the middle of arg");
            }
            proof {
                assert(cur@ =~= Seq::<char>::empty());
            }
            match parse_quoted(string, i + 1) {
                Ok((quoted, next_i)) => {
                    proof {
                        lemma_parse_quoted_shape(s_i.skip(1));
                        let (content, j) = spec_parse_quoted(s_i.skip(1))->Ok_0;
                        assert(s_i.skip(1 + j) =~= string@.skip(next_i as int));
                        assert(string_views(args@.push(quoted)) =~= string_views(args@).push(
                            quoted@,
                        ));
                    }
                    args.push(quoted);
                    i = next_i;
                },
                Err(m) => {
                    return Err(m);
                },
            }
        } else if c == ' ' {
            if !cur.as_str().is_empty() {
                proof {
                    assert(string_views(args@.push(cur)) =~= string_views(args@).push(cur@));
                }
                args.push(cur);
                cur = String::new();
            } else {
                proof {
                    assert(cur@ =~= Seq::<char>::empty());
                }
            }
            i = i + 1;
        } else if is_reserved(c) {
            return Err("Reserved character");
        } else {
            cur.push(c);
            i = i + 1;
        }
    }
    proof {
        assert(string@.skip(n as int) =~= Seq::<char>::empty());
    }
    if !cur.as_str().is_empty() {
        proof {
            assert(string_views(args@.push(cur)) =~= string_views(args@).push(cur@));
        }
        args.push(cur);
    }
    Ok(args)
}

} // verus!
