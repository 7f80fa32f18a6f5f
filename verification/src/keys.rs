//! Finding SSH key files by their names.

use vstd::prelude::*;

use crate::text::{ends_with, has_prefix, has_suffix, starts_with};

verus! {

/// `s` with every occurrence of `pat` taken out, occurrences found from the
/// left without overlap: what `str::replace(pat, "")` gives.
pub open spec fn remove_all(s: Seq<char>, pat: Seq<char>) -> Seq<char>
    decreases s.len(),
{
    if pat.len() == 0 || s.len() < pat.len() {
        s
    } else if s.subrange(0, pat.len() as int) == pat {
        remove_all(s.subrange(pat.len() as int, s.len() as int), pat)
    } else {
        seq![s[0]] + remove_all(s.drop_first(), pat)
    }
}

/// `s` with every occurrence of `pat` taken out; see [`remove_all`].
pub fn remove_occurrences(s: &str, pat: &str) -> (r: String)
    requires
        pat@.len() > 0,
    ensures
        r@ == remove_all(s@, pat@),
{
    let n = s.unicode_len();
    let m = pat.unicode_len();
    let mut out = String::new();
    let mut i: usize = 0;
    assert(s@.subrange(0, n as int) =~= s@);
    assert(out@ + remove_all(s@, pat@) =~= remove_all(s@, pat@));
    while i < n
        invariant
            i <= n,
            n == s@.len(),
            m == pat@.len(),
            m > 0,
            out@ + remove_all(s@.subrange(i as int, n as int), pat@) == remove_all(s@, pat@),
        decreases n - i,
    {
        let rest = s.substring_char(i, n);
        if n - i >= m && starts_with(rest, pat) {
            proof {
                assert(rest@.subrange(m as int, rest@.len() as int) =~= s@.subrange(i + m, n as int));
            }
            i = i + m;
        } else {
            let c = s.substring_char(i, i + 1);
            proof {
                assert(rest@.drop_first() =~= s@.subrange(i + 1, n as int));
                assert(c@ =~= seq![rest@[0]]);
                assert(out@ + c@ + remove_all(s@.subrange(i + 1, n as int), pat@) =~= out@ + (seq![
                    rest@[0],
                ] + remove_all(rest@.drop_first(), pat@)));
            }
            out.append(c);
            i = i + 1;
        }
    }
    proof {
        assert(s@.subrange(n as int, n as int) =~= Seq::<char>::empty());
        assert(out@ + Seq::<char>::empty() =~= out@);
    }
    out
}

/// The name of the private key of the public key file `filename`, if it is
/// one: a public key file is named `id_<...>.pub`, and its private key has
/// the same name with every `.pub` taken out.
pub open spec fn stored_private_key(filename: Seq<char>) -> Option<Seq<char>> {
    if has_prefix(filename, "id_"@) && has_suffix(filename, ".pub"@) {
        Some(remove_all(filename, ".pub"@))
    } else {
        None
    }
}

pub fn private_key_for(filename: &str) -> (r: Option<String>)
    ensures
        r is None <==> stored_private_key(filename@) is None,
        r matches Some(k) ==> stored_private_key(filename@) == Some(k@),
{
    proof {
        reveal_strlit(".pub");
    }
    if starts_with(filename, "id_") && ends_with(filename, ".pub") {
        Some(remove_occurrences(filename, ".pub"))
    } else {
        None
    }
}

/// A file of the key directory: its name and when it was last modified (in
/// nanoseconds since the Unix epoch).
pub struct KeyFile {
    pub name: String,
    pub modified: u128,
}

/// Whether the file `f` names a key: its name, without every `.pub`, begins
/// with `id_`.
pub open spec fn is_key_file(f: KeyFile) -> bool {
    has_prefix(remove_all(f.name@, ".pub"@), "id_"@)
}

/// The position of the key file modified last, the first of them on a tie;
/// only files modified after the epoch count.
pub open spec fn newest_key(files: Seq<KeyFile>) -> Option<nat>
    decreases files.len(),
{
    if files.len() == 0 {
        None
    } else {
        let last = files.last();
        match newest_key(files.drop_last()) {
            Some(i) => if is_key_file(last) && last.modified > files[i as int].modified {
                Some((files.len() - 1) as nat)
            } else {
                Some(i)
            },
            None => if is_key_file(last) && last.modified > 0 {
                Some((files.len() - 1) as nat)
            } else {
                None
            },
        }
    }
}

/// The private key modified last among the files of the key directory, by
/// its name with every `.pub` taken out; see [`newest_key`].
pub fn most_recent_private_key(files: &Vec<KeyFile>) -> (r: Option<String>)
    ensures
        r is None <==> newest_key(files@) is None,
        r matches Some(k) ==> k@ == remove_all(files@[newest_key(files@)->Some_0 as int].name@, ".pub"@),
{
    proof {
        reveal_strlit(".pub");
    }
    let mut latest_modified: u128 = 0;
    let mut latest: Option<usize> = None;
    let mut i: usize = 0;
    while i < files.len()
        invariant
            i <= files@.len(),
            latest is None <==> newest_key(files@.subrange(0, i as int)) is None,
            latest matches Some(j) ==> newest_key(files@.subrange(0, i as int)) == Some(j as nat),
            latest matches Some(j) ==> j < i && latest_modified == files@[j as int].modified,
            latest is None ==> latest_modified == 0,
        decreases files@.len() - i,
    {
        proof {
            reveal_strlit(".pub");
        }
        let f = &files[i];
        let stem = remove_occurrences(f.name.as_str(), ".pub");
        let key = starts_with(stem.as_str(), "id_");
        proof {
            let s = files@.subrange(0, i + 1);
            assert(s.drop_last() =~= files@.subrange(0, i as int));
            assert(s.last() == files@[i as int]);
            if let Some(j) = newest_key(files@.subrange(0, i as int)) {
                assert(s[j as int] == files@[j as int]);
            }
        }
        if key && f.modified > latest_modified {
            latest_modified = f.modified;
            latest = Some(i);
        }
        i = i + 1;
    }
    proof {
        assert(files@.subrange(0, files@.len() as int) =~= files@);
    }
    match latest {
        Some(j) => Some(remove_occurrences(files[j].name.as_str(), ".pub")),
        None => None,
    }
}

} // verus!
