//! Search-path editing.
//!
//! The user's `PATH` value is a semicolon-separated list of directories.
//! Reading and writing the value itself is registry work that the
//! surrounding application performs; the string manipulation — the
//! case-insensitive containment test, appending a directory, and
//! removing one — is done and proved here.

use vstd::prelude::*;
use crate::text::{
    chars_to_string, contains_str, join_with, lower_of, spec_contains, spec_join, str_eq,
    str_to_chars, to_lowercase,
};

verus! {

/// A semicolon-separated value split into its components: every `;`
/// starts a new (possibly empty) component.
pub open spec fn spec_split(s: Seq<char>, sep: char) -> Seq<Seq<char>>
    decreases s.len(),
{
    if s.len() == 0 {
        seq![Seq::<char>::empty()]
    } else {
        let rest = spec_split(s.drop_first(), sep);
        if s[0] == sep {
            seq![Seq::<char>::empty()] + rest
        } else {
            seq![seq![s[0]] + rest[0]] + rest.drop_first()
        }
    }
}

/// A split value has at least one component.
proof fn lemma_split_len_pos(s: Seq<char>, sep: char)
    ensures
        spec_split(s, sep).len() >= 1,
    decreases s.len(),
{
    if s.len() > 0 {
        lemma_split_len_pos(s.drop_first(), sep);
    }
}

/// Splitting at the first separator: the head component is everything
/// before it, and the rest splits on its own.
proof fn lemma_split_at_first(s: Seq<char>, sep: char, k: int)
    requires
        0 <= k <= s.len(),
        forall|j: int| 0 <= j < k ==> s[j] != sep,
        k < s.len() ==> s[k] == sep,
    ensures
        k == s.len() ==> spec_split(s, sep) == seq![s],
        k < s.len() ==> spec_split(s, sep) == seq![s.take(k)] + spec_split(s.skip(k + 1), sep),
    decreases k,
{
    if k == 0 {
        if s.len() == 0 {
            assert(spec_split(s, sep) == seq![Seq::<char>::empty()]);
            assert(s =~= Seq::<char>::empty());
        } else {
            assert(s.take(0) =~= Seq::<char>::empty());
            assert(s.skip(1) =~= s.drop_first());
        }
    } else {
        lemma_split_at_first(s.drop_first(), sep, k - 1);
        lemma_split_len_pos(s.drop_first(), sep);
        let rest = spec_split(s.drop_first(), sep);
        if k == s.len() {
            assert(rest == seq![s.drop_first()]);
            assert(seq![s[0]] + rest[0] =~= s);
            assert(rest.drop_first() =~= Seq::<Seq<char>>::empty());
            assert(seq![seq![s[0]] + rest[0]] + rest.drop_first() =~= seq![s]);
        } else {
            assert(rest == seq![s.drop_first().take(k - 1)] + spec_split(
                s.drop_first().skip(k),
                sep,
            ));
            assert(seq![s[0]] + rest[0] =~= s.take(k));
            assert(s.drop_first().skip(k) =~= s.skip(k + 1));
            assert(rest.drop_first() =~= spec_split(s.skip(k + 1), sep));
            assert(seq![seq![s[0]] + rest[0]] + rest.drop_first() =~= seq![s.take(k)] + spec_split(
                s.skip(k + 1),
                sep,
            ));
        }
    }
}

/// Splits a value on semicolons, from position `start` on.
fn split_semicolons_from(v: &Vec<char>, start: usize) -> (r: Vec<String>)
    requires
        start <= v@.len(),
    ensures
        r.deep_view() == spec_split(v@.skip(start as int), ';'),
    decreases v@.len() - start,
{
    let len = v.len();
    let mut j: usize = start;
    while j < len && v[j] != ';'
        invariant
            start <= j <= len,
            len == v@.len(),
            forall|i: int| start <= i < j ==> v@[i] != ';',
        decreases len - j,
    {
        j = j + 1;
    }
    let ghost tail = v@.skip(start as int);
    proof {
        assert(forall|i: int| 0 <= i < j - start ==> tail[i] != ';');
        if j < len {
            assert(tail[j - start] == ';');
        }
        lemma_split_at_first(tail, ';', j - start);
    }
    let mut head_chars: Vec<char> = Vec::new();
    let mut i: usize = start;
    while i < j
        invariant
            start <= i <= j <= len,
            len == v@.len(),
            head_chars@ == v@.subrange(start as int, i as int),
        decreases j - i,
    {
        head_chars.push(v[i]);
        proof {
            assert(v@.subrange(start as int, i + 1 as int) =~= v@.subrange(
                start as int,
                i as int,
            ).push(v@[i as int]));
        }
        i = i + 1;
    }
    let head = chars_to_string(&head_chars);
    if j == len {
        proof {
            assert(tail =~= v@.subrange(start as int, j as int));
        }
        let mut r: Vec<String> = Vec::new();
        r.push(head);
        proof {
            assert(r.deep_view() =~= seq![tail]);
        }
        r
    } else {
        let mut r = split_semicolons_from(v, j + 1);
        r.insert(0, head);
        proof {
            assert(head@ =~= tail.take(j - start));
            assert(v@.skip(j + 1) =~= tail.skip(j - start + 1));
            assert(r.deep_view() =~= seq![tail.take(j - start)] + spec_split(
                tail.skip(j - start + 1),
                ';',
            ));
        }
        r
    }
}

/// The components with the given one removed.
pub open spec fn spec_remove_matching(parts: Seq<Seq<char>>, dir: Seq<char>) -> Seq<Seq<char>>
    decreases parts.len(),
{
    if parts.len() == 0 {
        Seq::empty()
    } else if parts[0] == dir {
        spec_remove_matching(parts.drop_first(), dir)
    } else {
        seq![parts[0]] + spec_remove_matching(parts.drop_first(), dir)
    }
}

/// Manipulates the user's search-path value.
pub struct PathManager;

impl PathManager {
    /// Whether the value already mentions the directory, compared case
    /// insensitively, as a substring.
    pub fn contains_path(path: &str, directory: &str) -> (r: bool)
        ensures
            r == spec_contains(lower_of(path@), lower_of(directory@)),
    {
        let p = to_lowercase(path);
        let d = to_lowercase(directory);
        contains_str(p.as_str(), d.as_str())
    }

    /// The value with the directory appended (separated by a semicolon
    /// unless the value was empty).
    pub fn append_to_path(path: &str, directory: &str) -> (r: String)
        ensures
            r@ == if path@.len() == 0 {
                directory@
            } else {
                path@ + ";"@ + directory@
            },
    {
        if path.is_empty() {
            String::from_str(directory)
        } else {
            let mut s = String::from_str(path);
            s.append(";");
            s.append(directory);
            s
        }
    }

    /// The value with every component equal to the directory removed,
    /// the remaining components re-joined with semicolons.
    pub fn remove_from_path_str(path: &str, directory: &str) -> (r: String)
        ensures
            r@ == spec_join(
                spec_remove_matching(spec_split(path@, ';'), directory@),
                ";"@,
            ),
    {
        let v = str_to_chars(path);
        proof {
            assert(v@.skip(0) =~= v@);
        }
        let parts = split_semicolons_from(&v, 0);
        let ghost pd = parts.deep_view();
        let mut kept: Vec<String> = Vec::new();
        let n = parts.len();
        let mut i: usize = 0;
        proof {
            assert(pd.skip(0) =~= pd);
            assert(parts.deep_view().len() == parts@.len());
        }
        while i < n
            invariant
                i <= n,
                n == parts@.len(),
                pd == parts.deep_view(),
                pd.len() == n,
                spec_remove_matching(pd, directory@) == kept.deep_view() + spec_remove_matching(
                    pd.skip(i as int),
                    directory@,
                ),
            decreases n - i,
        {
            proof {
                assert(pd.skip(i as int)[0] == pd[i as int]);
                assert(pd.skip(i as int).drop_first() =~= pd.skip(i + 1 as int));
                assert(pd[i as int] == parts@[i as int]@);
            }
            if !str_eq(parts[i].as_str(), directory) {
                let ghost kept_old = kept.deep_view();
                kept.push(parts[i].clone());
                proof {
                    assert(kept.deep_view() =~= kept_old.push(pd[i as int]));
                    assert(kept_old + (seq![pd[i as int]] + spec_remove_matching(
                        pd.skip(i + 1 as int),
                        directory@,
                    )) =~= kept.deep_view() + spec_remove_matching(
                        pd.skip(i + 1 as int),
                        directory@,
                    ));
                }
            }
            i = i + 1;
        }
        proof {
            assert(pd.skip(n as int) =~= Seq::<Seq<char>>::empty());
            assert(kept.deep_view() + spec_remove_matching(pd.skip(n as int), directory@)
                =~= kept.deep_view());
        }
        join_with(&kept, ";")
    }

    /// Plans adding the directory to the value: the new value, or
    /// nothing when the value already mentions the directory.
    pub fn add_to_path(path: &str, directory: &str) -> (r: Option<String>)
        ensures
            spec_contains(lower_of(path@), lower_of(directory@)) <==> r is None,
            match r {
                Some(s) => s@ == if path@.len() == 0 {
                    directory@
                } else {
                    path@ + ";"@ + directory@
                },
                None => true,
            },
    {
        if Self::contains_path(path, directory) {
            None
        } else {
            Some(Self::append_to_path(path, directory))
        }
    }

    /// Plans removing the directory from the value: the new value, or
    /// nothing when the value does not mention the directory.
    pub fn remove_from_path(path: &str, directory: &str) -> (r: Option<String>)
        ensures
            spec_contains(lower_of(path@), lower_of(directory@)) <==> r is Some,
            match r {
                Some(s) => s@ == spec_join(
                    spec_remove_matching(spec_split(path@, ';'), directory@),
                    ";"@,
                ),
                None => true,
            },
    {
        if !Self::contains_path(path, directory) {
            None
        } else {
            Some(Self::remove_from_path_str(path, directory))
        }
    }
}

} // verus!
