use vstd::prelude::*;
use vstd::string::*;

use crate::error::Error;
use crate::strings::{count_matches, push_char, replace_all, starts_with};

verus! {

/// The pattern `.%f` that the sanitizer rewrites.
pub open spec fn pat_dot_f() -> Seq<char> {
    seq!['.', '%', 'f']
}

/// The replacement `%.f` the sanitizer writes in its place.
pub open spec fn rep_pct_dot_f() -> Seq<char> {
    seq!['%', '.', 'f']
}

/// The fragment `%f`, only accepted escaped or with a leading dot.
pub open spec fn pat_pct_f() -> Seq<char> {
    seq!['%', 'f']
}

/// The escaped fragment `%%f`.
pub open spec fn pat_pct_pct_f() -> Seq<char> {
    seq!['%', '%', 'f']
}

/// The format string after rewriting `.%f` to `%.f`.
pub open spec fn sanitized_format(f: Seq<char>) -> Seq<char> {
    replace_all(f, pat_dot_f(), rep_pct_dot_f())
}

/// Whether a format string is accepted by the sanitizer: after rewriting,
/// every `%f` left is part of an escaped `%%f`.
pub open spec fn format_ok(f: Seq<char>) -> bool {
    count_matches(sanitized_format(f), pat_pct_f()) == count_matches(
        sanitized_format(f),
        pat_pct_pct_f(),
    )
}

/// The message reported for a format string the sanitizer rejects.
pub open spec fn format_err_msg(sanitized: Seq<char>) -> Seq<char> {
    "Cannot use format: "@ + sanitized
        + ". Using %f without the leading dot is not supported."@
}

/// Rewrites every occurrence of `.%f` to `%.f`, scanning left to right.
fn replace_dot_pct_f(s: &str) -> (r: String)
    ensures
        r@ == sanitized_format(s@),
{
    let n = s.unicode_len();
    let mut out = String::new();
    let mut i: usize = 0;
    proof {
        assert(s@.skip(0) =~= s@);
    }
    while i < n
        invariant
            0 <= i <= n,
            n == s@.len(),
            sanitized_format(s@) == out@ + replace_all(s@.skip(i as int), pat_dot_f(), rep_pct_dot_f()),
        decreases n - i,
    {
        let ghost tail = s@.skip(i as int);
        let ghost old_out = out@;
        if n - i > 2 && s.get_char(i) == '.' && s.get_char(i + 1) == '%' && s.get_char(i + 2)
            == 'f' {
            proof {
                assert(tail.subrange(0, 3) =~= pat_dot_f());
                assert(starts_with(tail, pat_dot_f()));
                assert(replace_all(tail, pat_dot_f(), rep_pct_dot_f()) == rep_pct_dot_f()
                    + replace_all(tail.skip(3), pat_dot_f(), rep_pct_dot_f()));
                assert(tail.skip(3) =~= s@.skip(i + 3));
            }
            push_char(&mut out, '%');
            push_char(&mut out, '.');
            push_char(&mut out, 'f');
            proof {
                assert(out@ =~= old_out + rep_pct_dot_f()) by {
                    assert(out@ == old_out.push('%').push('.').push('f'));
                }
            }
            i += 3;
        } else {
            let c = s.get_char(i);
            proof {
                if starts_with(tail, pat_dot_f()) {
                    assert(tail[0] == s@[i as int]);
                    assert(tail[1] == s@[i + 1]);
                    assert(tail[2] == s@[i + 2]);
                    assert(tail.subrange(0, 3)[0] == tail[0]);
                    assert(tail.subrange(0, 3)[1] == tail[1]);
                    assert(tail.subrange(0, 3)[2] == tail[2]);
                    assert(false);
                }
                assert(replace_all(tail, pat_dot_f(), rep_pct_dot_f()) == seq![tail[0]]
                    + replace_all(tail.skip(1), pat_dot_f(), rep_pct_dot_f()));
                assert(tail.skip(1) =~= s@.skip(i + 1));
                assert(tail[0] == s@[i as int]);
            }
            push_char(&mut out, c);
            proof {
                assert(out@ =~= old_out + seq![c]);
            }
            i += 1;
        }
    }
    proof {
        assert(s@.skip(n as int) =~= Seq::<char>::empty());
        assert(out@ + replace_all(s@.skip(n as int), pat_dot_f(), rep_pct_dot_f()) =~= out@);
    }
    out
}

/// Counts non-overlapping occurrences of `%f`, scanning left to right.
fn count_pct_f(s: &str) -> (r: u64)
    ensures
        r as nat == count_matches(s@, pat_pct_f()),
{
    let n = s.unicode_len();
    let mut cnt: u64 = 0;
    let mut i: usize = 0;
    proof {
        assert(s@.skip(0) =~= s@);
    }
    while i < n
        invariant
            0 <= i <= n,
            n == s@.len(),
            cnt as nat <= i as nat,
            count_matches(s@, pat_pct_f()) == cnt as nat + count_matches(
                s@.skip(i as int),
                pat_pct_f(),
            ),
        decreases n - i,
    {
        let ghost tail = s@.skip(i as int);
        if n - i > 1 && s.get_char(i) == '%' && s.get_char(i + 1) == 'f' {
            proof {
                assert(tail.subrange(0, 2) =~= pat_pct_f());
                assert(starts_with(tail, pat_pct_f()));
                assert(tail.skip(2) =~= s@.skip(i + 2));
            }
            cnt += 1;
            i += 2;
        } else {
            proof {
                if tail.len() >= 2 {
                    if starts_with(tail, pat_pct_f()) {
                        assert(tail.subrange(0, 2)[0] == tail[0]);
                        assert(tail.subrange(0, 2)[1] == tail[1]);
                        assert(tail[0] == s@[i as int]);
                        assert(tail[1] == s@[i + 1]);
                        assert(false);
                    }
                    assert(count_matches(tail, pat_pct_f()) == count_matches(
                        tail.skip(1),
                        pat_pct_f(),
                    ));
                } else {
                    assert(count_matches(tail, pat_pct_f()) == 0);
                    assert(count_matches(tail.skip(1), pat_pct_f()) == 0);
                }
                assert(tail.skip(1) =~= s@.skip(i + 1));
            }
            i += 1;
        }
    }
    proof {
        assert(s@.skip(n as int) =~= Seq::<char>::empty());
        assert(count_matches(s@.skip(n as int), pat_pct_f()) == 0);
    }
    cnt
}

/// Counts non-overlapping occurrences of `%%f`, scanning left to right.
fn count_pct_pct_f(s: &str) -> (r: u64)
    ensures
        r as nat == count_matches(s@, pat_pct_pct_f()),
{
    let n = s.unicode_len();
    let mut cnt: u64 = 0;
    let mut i: usize = 0;
    proof {
        assert(s@.skip(0) =~= s@);
    }
    while i < n
        invariant
            0 <= i <= n,
            n == s@.len(),
            cnt as nat <= i as nat,
            count_matches(s@, pat_pct_pct_f()) == cnt as nat + count_matches(
                s@.skip(i as int),
                pat_pct_pct_f(),
            ),
        decreases n - i,
    {
        let ghost tail = s@.skip(i as int);
        if n - i > 2 && s.get_char(i) == '%' && s.get_char(i + 1) == '%' && s.get_char(i + 2)
            == 'f' {
            proof {
                assert(tail.subrange(0, 3) =~= pat_pct_pct_f());
                assert(starts_with(tail, pat_pct_pct_f()));
                assert(tail.skip(3) =~= s@.skip(i + 3));
            }
            cnt += 1;
            i += 3;
        } else {
            proof {
                if tail.len() >= 3 {
                    if starts_with(tail, pat_pct_pct_f()) {
                        assert(tail.subrange(0, 3)[0] == tail[0]);
                        assert(tail.subrange(0, 3)[1] == tail[1]);
                        assert(tail.subrange(0, 3)[2] == tail[2]);
                        assert(tail[0] == s@[i as int]);
                        assert(tail[1] == s@[i + 1]);
                        assert(tail[2] == s@[i + 2]);
                        assert(false);
                    }
                    assert(count_matches(tail, pat_pct_pct_f()) == count_matches(
                        tail.skip(1),
                        pat_pct_pct_f(),
                    ));
                } else {
                    assert(count_matches(tail, pat_pct_pct_f()) == 0);
                    assert(count_matches(tail.skip(1), pat_pct_pct_f()) == 0);
                }
                assert(tail.skip(1) =~= s@.skip(i + 1));
            }
            i += 1;
        }
    }
    proof {
        assert(s@.skip(n as int) =~= Seq::<char>::empty());
        assert(count_matches(s@.skip(n as int), pat_pct_pct_f()) == 0);
    }
    cnt
}

/// Rewrites `.%f` to `%.f` and accepts the result only when every remaining
/// `%f` is part of an escaped `%%f`.
pub fn sanitize_format_string(format: &str) -> (r: Result<String, Error>)
    ensures
        match r {
            Ok(s) => format_ok(format@) && s@ == sanitized_format(format@),
            Err(e) => !format_ok(format@) && (e matches Error::ParseError(m) && m@
                == format_err_msg(sanitized_format(format@))),
        },
{
    let replaced = replace_dot_pct_f(format);
    let plain = count_pct_f(replaced.as_str());
    let escaped = count_pct_pct_f(replaced.as_str());
    if plain == escaped {
        Ok(replaced)
    } else {
        let mut msg = String::new();
        msg.append("Cannot use format: ");
        msg.append(replaced.as_str());
        msg.append(". Using %f without the leading dot is not supported.");
        proof {
            assert(msg@ =~= format_err_msg(sanitized_format(format@)));
        }
        Err(Error::ParseError(msg))
    }
}

} // verus!
