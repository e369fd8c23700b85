//! The shell-like tokenizer of the inline protocol: whitespace
//! separates tokens, double quotes take C-style escapes (`\xHH`, `\n`,
//! `\r`, `\t`, `\b`, `\a`, any other character literally), single
//! quotes take only `\'`, and an unbalanced quote fails the line. A
//! closing quote ends its token; the byte after it must be a separator
//! or the end of the line.

use vstd::prelude::*;

verus! {

#[derive(Debug, Clone, Copy, PartialEq, Eq, Structural)]
pub enum SplitArgsError {
    UnbalancedQuotes,
}

/// The separators between tokens, as C's `isspace` has them.
pub open spec fn is_space_byte(c: u8) -> bool {
    c == 32 || c == 10 || c == 13 || c == 9 || c == 11 || c == 12
}

pub fn is_space(ch: u8) -> (r: bool)
    ensures
        r == is_space_byte(ch),
{
    ch == 32u8 || ch == 10u8 || ch == 13u8 || ch == 9u8 || ch == 0xb || ch == 0xc
}

/// The value of a hexadecimal digit.
pub open spec fn hex_value(c: u8) -> u8 {
    if 48 <= c <= 57 {
        (c - 48) as u8
    } else if 97 <= c <= 102 {
        (c - 97 + 10) as u8
    } else if 65 <= c <= 70 {
        (c - 65 + 10) as u8
    } else {
        0
    }
}

pub open spec fn is_hex_digit(c: u8) -> bool {
    48 <= c <= 57 || 97 <= c <= 102 || 65 <= c <= 70
}

/// The value of one hexadecimal digit; digits only.
pub fn hex_digit_to_int(ch: u8) -> (r: u8)
    requires
        is_hex_digit(ch),
    ensures
        r == hex_value(ch),
{
    if ch >= 48u8 && ch <= 57u8 {
        ch - 48u8
    } else if ch >= 97u8 && ch <= 102u8 {
        ch - 97u8 + 10
    } else {
        ch - 65u8 + 10
    }
}

/// Whether the byte is a hexadecimal digit.
pub fn is_hex(ch: u8) -> (r: bool)
    ensures
        r == is_hex_digit(ch),
{
    (ch >= 48u8 && ch <= 57u8) || (ch >= 97u8 && ch <= 102u8) || (ch >= 65u8 && ch <= 70u8)
}

/// Where the tokenizer stands: between tokens, inside a bare token,
/// or inside one of the two quote forms.
pub enum SplitState {
    Between,
    Bare,
    DoubleQuoted,
    SingleQuoted,
}

/// What the escape character maps to inside double quotes.
pub open spec fn dquote_escape(c: u8) -> u8 {
    if c == 110 {
        10
    } else if c == 114 {
        13
    } else if c == 116 {
        9
    } else if c == 98 {
        8
    } else if c == 97 {
        7
    } else {
        c
    }
}

/// The tokenizer, one byte class at a time: `None` is an unbalanced
/// quote. `acc` is the token being built, `toks` the finished ones.
pub open spec fn split_rec(
    line: Seq<u8>,
    st: SplitState,
    acc: Seq<u8>,
    toks: Seq<Seq<u8>>,
) -> Option<Seq<Seq<u8>>>
    decreases line.len(),
{
    if line.len() == 0 {
        match st {
            SplitState::Between => Some(toks),
            SplitState::Bare => Some(toks.push(acc)),
            SplitState::DoubleQuoted => None,
            SplitState::SingleQuoted => None,
        }
    } else {
        let c = line[0];
        match st {
            SplitState::Between => if is_space_byte(c) {
                split_rec(line.skip(1), SplitState::Between, acc, toks)
            } else if c == 34 {
                split_rec(line.skip(1), SplitState::DoubleQuoted, Seq::empty(), toks)
            } else if c == 39 {
                split_rec(line.skip(1), SplitState::SingleQuoted, Seq::empty(), toks)
            } else {
                split_rec(line.skip(1), SplitState::Bare, seq![c], toks)
            },
            SplitState::Bare => if c == 32 || c == 10 || c == 13 || c == 9 {
                split_rec(line.skip(1), SplitState::Between, Seq::empty(), toks.push(acc))
            } else if c == 34 {
                split_rec(line.skip(1), SplitState::DoubleQuoted, acc, toks)
            } else if c == 39 {
                split_rec(line.skip(1), SplitState::SingleQuoted, acc, toks)
            } else {
                split_rec(line.skip(1), SplitState::Bare, acc.push(c), toks)
            },
            SplitState::DoubleQuoted => if c == 92 && line.len() >= 4 && line[1] == 120
                && is_hex_digit(line[2]) && is_hex_digit(line[3]) {
                split_rec(
                    line.skip(4),
                    SplitState::DoubleQuoted,
                    acc.push((hex_value(line[2]) * 16 + hex_value(line[3])) as u8),
                    toks,
                )
            } else if c == 92 && line.len() >= 2 {
                split_rec(
                    line.skip(2),
                    SplitState::DoubleQuoted,
                    acc.push(dquote_escape(line[1])),
                    toks,
                )
            } else if c == 34 && line.len() >= 2 && !is_space_byte(line[1]) {
                None
            } else if c == 34 {
                split_rec(line.skip(1), SplitState::Between, Seq::empty(), toks.push(acc))
            } else {
                split_rec(line.skip(1), SplitState::DoubleQuoted, acc.push(c), toks)
            },
            SplitState::SingleQuoted => if c == 92 && line.len() >= 2 && line[1] == 39 {
                split_rec(line.skip(2), SplitState::SingleQuoted, acc.push(39), toks)
            } else if c == 39 && line.len() >= 2 && !is_space_byte(line[1]) {
                None
            } else if c == 39 {
                split_rec(line.skip(1), SplitState::Between, Seq::empty(), toks.push(acc))
            } else {
                split_rec(line.skip(1), SplitState::SingleQuoted, acc.push(c), toks)
            },
        }
    }
}

/// The views of a list of byte vectors.
pub open spec fn token_views(toks: Seq<Vec<u8>>) -> Seq<Seq<u8>> {
    toks.map_values(|v: Vec<u8>| v@)
}

/// What tokenizing a whole line means.
pub open spec fn split_args_spec(line: Seq<u8>) -> Option<Seq<Seq<u8>>> {
    split_rec(line, SplitState::Between, Seq::empty(), Seq::empty())
}

/// Splits a line into tokens; fails exactly on unbalanced quotes.
pub fn split_args(line: &Vec<u8>) -> (r: Result<Vec<Vec<u8>>, SplitArgsError>)
    ensures
        match r {
            Ok(toks) => split_args_spec(line@) == Some(token_views(toks@)),
            Err(_) => split_args_spec(line@) is None,
        },
{
    let len: usize = line.len();
    let mut toks: Vec<Vec<u8>> = Vec::new();
    let mut acc: Vec<u8> = Vec::new();
    let mut st = SplitState::Between;
    let mut i: usize = 0;
    proof {
        assert(line@.skip(0) =~= line@);
        assert(token_views(toks@) =~= Seq::<Seq<u8>>::empty());
        assert(acc@ =~= Seq::<u8>::empty());
    }
    while i < len
        invariant
            i <= len == line@.len(),
            split_rec(line@.skip(i as int), st, acc@, token_views(toks@)) == split_args_spec(
                line@,
            ),
        decreases len - i,
    {
        let ghost rest = line@.skip(i as int);
        let ghost toks0 = token_views(toks@);
        let c: u8 = line[i];
        proof {
            assert(rest[0] == c);
            assert(rest.len() >= 1);
            assert(rest.skip(1) =~= line@.skip(i + 1));
            if rest.len() >= 2 {
                assert(rest[1] == line@[i + 1]);
                assert(rest.skip(2) =~= line@.skip(i + 2));
            }
            if rest.len() >= 4 {
                assert(rest[2] == line@[i + 2]);
                assert(rest[3] == line@[i + 3]);
                assert(rest.skip(4) =~= line@.skip(i + 4));
            }
        }
        match st {
            SplitState::Between => {
                if is_space(c) {
                    i = i + 1;
                } else if c == 34u8 {
                    st = SplitState::DoubleQuoted;
                    acc = Vec::new();
                    proof {
                        assert(acc@ =~= Seq::<u8>::empty());
                    }
                    i = i + 1;
                } else if c == 39u8 {
                    st = SplitState::SingleQuoted;
                    acc = Vec::new();
                    proof {
                        assert(acc@ =~= Seq::<u8>::empty());
                    }
                    i = i + 1;
                } else {
                    st = SplitState::Bare;
                    acc = Vec::new();
                    acc.push(c);
                    proof {
                        assert(acc@ =~= seq![c]);
                    }
                    i = i + 1;
                }
            },
            SplitState::Bare => {
                if c == 32u8 || c == 10u8 || c == 13u8 || c == 9u8 {
                    let ghost prev_acc = acc@;
                    let done = acc;
                    toks.push(done);
                    acc = Vec::new();
                    st = SplitState::Between;
                    proof {
                        assert(token_views(toks@) =~= toks0.push(prev_acc));
                        assert(acc@ =~= Seq::<u8>::empty());
                    }
                    i = i + 1;
                } else if c == 34u8 {
                    st = SplitState::DoubleQuoted;
                    i = i + 1;
                } else if c == 39u8 {
                    st = SplitState::SingleQuoted;
                    i = i + 1;
                } else {
                    acc.push(c);
                    i = i + 1;
                }
            },
            SplitState::DoubleQuoted => {
                if c == 92u8 && len - i > 3 && line[i + 1] == 120u8 && is_hex(line[i + 2])
                    && is_hex(line[i + 3]) {
                    let v: u8 = hex_digit_to_int(line[i + 2]) * 16 + hex_digit_to_int(
                        line[i + 3],
                    );
                    acc.push(v);
                    i = i + 4;
                } else if c == 92u8 && len - i > 1 {
                    let e: u8 = line[i + 1];
                    let b: u8 = if e == 110u8 {
                        10u8
                    } else if e == 114u8 {
                        13u8
                    } else if e == 116u8 {
                        9u8
                    } else if e == 98u8 {
                        8
                    } else if e == 97u8 {
                        7
                    } else {
                        e
                    };
                    acc.push(b);
                    i = i + 2;
                } else if c == 34u8 && len - i > 1 && !is_space(line[i + 1]) {
                    return Err(SplitArgsError::UnbalancedQuotes);
                } else if c == 34u8 {
                    let ghost prev_acc = acc@;
                    let ghost toks1 = token_views(toks@);
                    toks.push(acc);
                    acc = Vec::new();
                    st = SplitState::Between;
                    proof {
                        assert(token_views(toks@) =~= toks1.push(prev_acc));
                        assert(acc@ =~= Seq::<u8>::empty());
                    }
                    i = i + 1;
                } else {
                    acc.push(c);
                    i = i + 1;
                }
            },
            SplitState::SingleQuoted => {
                if c == 92u8 && len - i > 1 && line[i + 1] == 39u8 {
                    acc.push(39u8);
                    i = i + 2;
                } else if c == 39u8 && len - i > 1 && !is_space(line[i + 1]) {
                    return Err(SplitArgsError::UnbalancedQuotes);
                } else if c == 39u8 {
                    let ghost prev_acc = acc@;
                    let ghost toks1 = token_views(toks@);
                    toks.push(acc);
                    acc = Vec::new();
                    st = SplitState::Between;
                    proof {
                        assert(token_views(toks@) =~= toks1.push(prev_acc));
                        assert(acc@ =~= Seq::<u8>::empty());
                    }
                    i = i + 1;
                } else {
                    acc.push(c);
                    i = i + 1;
                }
            },
        }
    }
    proof {
        assert(line@.skip(len as int) =~= Seq::<u8>::empty());
    }
    match st {
        SplitState::Between => Ok(toks),
        SplitState::Bare => {
            let ghost toks0 = token_views(toks@);
            let ghost prev_acc = acc@;
            toks.push(acc);
            proof {
                assert(token_views(toks@) =~= toks0.push(prev_acc));
            }
            Ok(toks)
        },
        SplitState::DoubleQuoted => Err(SplitArgsError::UnbalancedQuotes),
        SplitState::SingleQuoted => Err(SplitArgsError::UnbalancedQuotes),
    }
}

} // verus!
