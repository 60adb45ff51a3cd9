//! Small shared utilities: safe file names for identifiers, default checks,
//! and home-relative path display.

use crate::bytes::hex_of;
use crate::bytes::hex_string;
use crate::hashing::blake2b_of;
use crate::hashing::blake2b256sum;
use vstd::prelude::*;
use vstd::string::StringExecFns;
use vstd::string::StringSliceAdditionalSpecFns;
use vstd::string::StrSliceExecFns;

verus! {

/// A character that passes through sanitisation unchanged: ASCII letters,
/// digits, dash and underscore. Everything else becomes an underscore.
pub open spec fn keep_char(c: char) -> bool {
    ('a' <= c && c <= 'z') || ('A' <= c && c <= 'Z') || ('0' <= c && c <= '9') || c == '-' || c
        == '_'
}

pub open spec fn sanitized_char(c: char) -> char {
    if keep_char(c) {
        c
    } else {
        '_'
    }
}

/// At most the first 64 characters of a name.
pub open spec fn clip64(s: Seq<char>) -> Seq<char> {
    if s.len() <= 64 {
        s
    } else {
        s.take(64)
    }
}

/// The readable prefix of a sanitised name.
pub open spec fn sanitize_prefix(s: Seq<char>) -> Seq<char> {
    clip64(s).map_values(|c: char| sanitized_char(c))
}

/// Turns an identifier into something safe for use in paths: escaped
/// characters and a length cap would collide, so the first eight bytes of
/// the identifier's hash are appended in hexadecimal.
pub fn sanitize_name(s: &str) -> (r: String)
    ensures
        r@ == sanitize_prefix(s@) + seq!['-'] + hex_of(blake2b_of(s.spec_bytes()).subrange(0, 8)),
{
    let ghost f = |c: char| sanitized_char(c);
    let mut out = String::new();
    let n_chars = s.unicode_len();
    let limit: usize = if n_chars < 64 {
        n_chars
    } else {
        64
    };
    proof {
        assert(clip64(s@).take(0) =~= Seq::<char>::empty());
    }
    let mut i: usize = 0;
    while i < limit
        invariant
            limit as int == if s@.len() <= 64 {
                s@.len() as int
            } else {
                64int
            },
            i <= limit,
            out@ == clip64(s@).take(i as int).map_values(f),
            f == (|c: char| sanitized_char(c)),
        decreases limit - i,
    {
        let c = s.get_char(i);
        let kept: char = if (c >= 'a' && c <= 'z') || (c >= 'A' && c <= 'Z') || (c >= '0' && c
            <= '9') || c == '-' || c == '_' {
            c
        } else {
            '_'
        };
        out.push(kept);
        proof {
            let cl = clip64(s@);
            assert(kept == sanitized_char(cl[i as int]));
            assert(cl.take(i as int + 1) =~= cl.take(i as int).push(cl[i as int]));
            assert(cl.take(i as int + 1).map_values(f) =~= cl.take(i as int).map_values(f).push(
                f(cl[i as int]),
            )) by {
                assert forall|t: int| 0 <= t < cl.take(i as int + 1).map_values(f).len() implies
                    #[trigger] cl.take(i as int + 1).map_values(f)[t] == cl.take(
                    i as int,
                ).map_values(f).push(f(cl[i as int]))[t] by {}
            }
        }
        i = i + 1;
    }
    proof {
        assert(clip64(s@).take(limit as int) =~= clip64(s@));
    }
    out.push('-');
    let bytes = s.as_bytes_vec();
    let h = blake2b256sum(bytes.as_slice());
    let mut h8: Vec<u8> = Vec::new();
    let mut k: usize = 0;
    while k < 8
        invariant
            k <= 8,
            h@.len() == 32,
            h@ == blake2b_of(s.spec_bytes()),
            h8@ == h@.subrange(0, k as int),
        decreases 8 - k,
    {
        h8.push(h[k]);
        proof {
            assert(h@.subrange(0, k as int).push(h@[k as int]) =~= h@.subrange(0, k as int + 1));
        }
        k = k + 1;
    }
    let hex = hex_string(&h8);
    out.append(hex.as_str());
    proof {
        assert(out@ =~= sanitize_prefix(s@) + seq!['-'] + hex_of(
            blake2b_of(s.spec_bytes()).subrange(0, 8),
        ));
    }
    out
}

/// Whether a value equals its type's default. Nothing is known of a foreign
/// `Default` or `PartialEq` implementation, so nothing more is promised.
pub fn is_equal_default<T: Default + PartialEq>(t: &T) -> bool {
    *t == T::default()
}

/// Whether a vector is empty.
pub fn is_vec_empty<T>(t: &Vec<T>) -> (r: bool)
    ensures
        r == (t@.len() == 0),
{
    t.is_empty()
}

/// The home directory's character sequence, if one is known.
pub open spec fn home_view(home: Option<String>) -> Option<Seq<char>> {
    match home {
        Some(h) => Some(h@),
        None => None,
    }
}

/// How a path is displayed: shortened to `~/...` when it lies under the
/// home directory, unchanged otherwise.
pub open spec fn tilda_spec(home: Option<Seq<char>>, path: Seq<char>) -> Seq<char> {
    match home {
        Some(h) => {
            if path == h {
                seq!['~', '/']
            } else if h.len() < path.len() && path.subrange(0, h.len() as int) == h && path[h.len() as int]
                == '/' {
                seq!['~'] + path.skip(h.len() as int)
            } else {
                path
            }
        },
        None => path,
    }
}

fn is_char_prefix(path: &String, h: &String) -> (r: bool)
    requires
        h@.len() <= path@.len(),
    ensures
        r == (path@.subrange(0, h@.len() as int) == h@),
{
    let hl = h.as_str().unicode_len();
    let mut i: usize = 0;
    while i < hl
        invariant
            hl == h@.len(),
            h@.len() <= path@.len(),
            i <= hl,
            forall|k: int| 0 <= k < i ==> path@[k] == h@[k],
        decreases hl - i,
    {
        if path.as_str().get_char(i) != h.as_str().get_char(i) {
            proof {
                assert(path@.subrange(0, h@.len() as int)[i as int] == path@[i as int]);
            }
            return false;
        }
        i = i + 1;
    }
    proof {
        assert(path@.subrange(0, h@.len() as int) =~= h@);
    }
    true
}

/// Shortens a path to `~/...` when it lies under the home directory.
pub fn tilda_home_path(home: &Option<String>, path: &String) -> (r: String)
    ensures
        r@ == tilda_spec(home_view(*home), path@),
{
    match home {
        None => path.clone(),
        Some(h) => {
            if path.eq(h) {
                proof {
                    reveal_strlit("~/");
                }
                String::from_str("~/")
            } else {
                let hl = h.as_str().unicode_len();
                let pl = path.as_str().unicode_len();
                if hl < pl && is_char_prefix(path, h) && path.as_str().get_char(hl) == '/' {
                    proof {
                        reveal_strlit("~");
                    }
                    let mut out = String::from_str("~");
                    let mut j: usize = hl;
                    while j < pl
                        invariant
                            hl <= j <= pl,
                            pl == path@.len(),
                            out@ == seq!['~'] + path@.subrange(hl as int, j as int),
                        decreases pl - j,
                    {
                        out.push(path.as_str().get_char(j));
                        proof {
                            assert(seq!['~'] + path@.subrange(hl as int, j as int + 1) =~= (
                            seq!['~'] + path@.subrange(hl as int, j as int)).push(
                                path@[j as int],
                            ));
                        }
                        j = j + 1;
                    }
                    proof {
                        assert(path@.subrange(hl as int, pl as int) =~= path@.skip(hl as int));
                    }
                    out
                } else {
                    path.clone()
                }
            }
        },
    }
}

} // verus!
