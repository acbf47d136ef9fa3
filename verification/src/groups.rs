//! Group names and calendar paths.

use vstd::prelude::*;
use crate::error::Error;

verus! {

/// A character allowed in a group name.
pub open spec fn is_group_char(c: char) -> bool {
    ('0' <= c && c <= '9') || ('a' <= c && c <= 'z')
}

/// A group name: one or more digits or lower-case ASCII letters.
pub open spec fn is_group_name(s: Seq<char>) -> bool {
    s.len() > 0 && forall|i: int| 0 <= i < s.len() ==> is_group_char(#[trigger] s[i])
}

/// The pattern that group names are checked against.
pub open spec fn group_pattern() -> Seq<char> {
    "^[0-9a-z]+$"@
}

/// What `regex::Regex::new(pattern)` followed by `is_match(haystack)` gives:
/// `None` where the pattern does not compile, else whether the haystack matches.
pub uninterp spec fn regex_match_result(pattern: Seq<char>, haystack: Seq<char>) -> Option<bool>;

/// Calls `regex::Regex::new(pattern)` and, where it compiles, `Regex::is_match(haystack)`.
/// Claimed: the result is a function of the two texts; and for the pattern
/// `^[0-9a-z]+$` (anchored at both ends, one or more characters of the class
/// `0-9` or `a-z`, as the regex crate's syntax documentation defines them)
/// the pattern compiles and matches exactly the group names.
#[verifier::external_body]
fn regex_is_match(pattern: &str, haystack: &str) -> (r: Option<bool>)
    ensures
        r == regex_match_result(pattern@, haystack@),
        pattern@ == group_pattern() ==> r == Some(is_group_name(haystack@)),
{
    let re = regex::Regex::new(pattern).ok()?;
    Some(re.is_match(haystack))
}

/// Checks a group name: returns it when it is one or more of `[0-9a-z]`,
/// else `InvalidGroupFormat` with the name.
pub fn validate_group(name: &str) -> (r: Result<&str, Error>)
    ensures
        is_group_name(name@) ==> r == Ok::<&str, Error>(name),
        !is_group_name(name@) ==> (r matches Err(Error::InvalidGroupFormat(n)) && n@ == name@),
{
    match regex_is_match("^[0-9a-z]+$", name) {
        Some(true) => Ok(name),
        _ => Err(Error::InvalidGroupFormat(name.to_owned())),
    }
}


/// The pieces of `s` between occurrences of `sep`, as `str::split` gives them:
/// a text without `sep` is one piece, and each `sep` starts a new piece.
pub open spec fn split_on(s: Seq<char>, sep: char) -> Seq<Seq<char>>
    decreases s.len(),
{
    if s.len() == 0 {
        seq![Seq::<char>::empty()]
    } else {
        let prev = split_on(s.drop_last(), sep);
        if s.last() == sep {
            prev.push(Seq::<char>::empty())
        } else {
            prev.update(prev.len() - 1, prev.last().push(s.last()))
        }
    }
}

/// The pieces joined with `sep` between each two of them.
pub open spec fn join_with(parts: Seq<Seq<char>>, sep: char) -> Seq<char>
    decreases parts.len(),
{
    if parts.len() == 0 {
        Seq::<char>::empty()
    } else if parts.len() == 1 {
        parts[0]
    } else {
        join_with(parts.drop_last(), sep) + seq![sep] + parts.last()
    }
}

/// The group names that a calendar path such as `work+home` lists.
pub open spec fn path_groups(path: Seq<char>) -> Seq<Seq<char>> {
    split_on(path, '+')
}

/// Every piece of a calendar path is a group name.
pub open spec fn path_is_valid(path: Seq<char>) -> bool {
    forall|i: int| 0 <= i < path_groups(path).len() ==> is_group_name(#[trigger] path_groups(path)[i])
}

pub(crate) proof fn lemma_split_nonempty(s: Seq<char>, sep: char)
    ensures
        split_on(s, sep).len() >= 1,
    decreases s.len(),
{
    if s.len() > 0 {
        lemma_split_nonempty(s.drop_last(), sep);
    }
}

/// Splitting `a`, `sep`, `b` gives the pieces of `a` followed by those of `b`.
pub(crate) proof fn lemma_split_concat(a: Seq<char>, b: Seq<char>, sep: char)
    ensures
        split_on(a + seq![sep] + b, sep) == split_on(a, sep) + split_on(b, sep),
    decreases b.len(),
{
    let s = a + seq![sep] + b;
    lemma_split_nonempty(a, sep);
    if b.len() == 0 {
        assert(s.drop_last() =~= a);
        assert(split_on(b, sep) =~= seq![Seq::<char>::empty()]);
        assert(split_on(s, sep) =~= split_on(a, sep) + split_on(b, sep));
    } else {
        let b0 = b.drop_last();
        lemma_split_concat(a, b0, sep);
        lemma_split_nonempty(b0, sep);
        assert(s.drop_last() =~= a + seq![sep] + b0);
        assert(b.drop_last() =~= b0);
        assert(split_on(s, sep) =~= split_on(a, sep) + split_on(b, sep));
    }
}

/// A text without `sep` is a single piece.
pub(crate) proof fn lemma_split_no_sep(s: Seq<char>, sep: char)
    requires
        !s.contains(sep),
    ensures
        split_on(s, sep) == seq![s],
    decreases s.len(),
{
    if s.len() > 0 {
        let s0 = s.drop_last();
        assert(!s0.contains(sep)) by {
            if s0.contains(sep) {
                let k = choose|k: int| 0 <= k < s0.len() && s0[k] == sep;
                assert(s[k] == sep);
            }
        }
        lemma_split_no_sep(s0, sep);
        assert(s[s.len() - 1] == s.last());
        assert(s0.push(s.last()) =~= s);
    } else {
        assert(s =~= Seq::<char>::empty());
    }
}

/// Joining pieces whose last piece grew by `c` grows the whole by `c`.
proof fn lemma_join_extend_last(parts: Seq<Seq<char>>, sep: char, c: char)
    requires
        parts.len() >= 1,
    ensures
        join_with(parts.update(parts.len() - 1, parts.last().push(c)), sep) == join_with(parts, sep).push(c),
{
    let q = parts.update(parts.len() - 1, parts.last().push(c));
    if parts.len() > 1 {
        assert(q.drop_last() =~= parts.drop_last());
        assert(join_with(q, sep) =~= join_with(parts, sep).push(c));
    }
}

/// Joining the pieces of a text with the separator gives back the text.
pub proof fn lemma_join_split(s: Seq<char>, sep: char)
    ensures
        join_with(split_on(s, sep), sep) == s,
    decreases s.len(),
{
    if s.len() > 0 {
        let s0 = s.drop_last();
        lemma_join_split(s0, sep);
        lemma_split_nonempty(s0, sep);
        let prev = split_on(s0, sep);
        if s.last() == sep {
            let q = prev.push(Seq::<char>::empty());
            assert(q.drop_last() =~= prev);
            assert(join_with(q, sep) =~= s);
        } else {
            lemma_join_extend_last(prev, sep, s.last());
            assert(s0.push(s.last()) =~= s);
        }
    }
}

/// Splitting pieces that were joined with a separator none of them holds gives back the pieces.
pub proof fn lemma_split_join(parts: Seq<Seq<char>>, sep: char)
    requires
        parts.len() >= 1,
        forall|i: int| 0 <= i < parts.len() ==> !(#[trigger] parts[i]).contains(sep),
    ensures
        split_on(join_with(parts, sep), sep) == parts,
    decreases parts.len(),
{
    if parts.len() == 1 {
        lemma_split_no_sep(parts[0], sep);
        assert(seq![parts[0]] =~= parts);
    } else {
        let init = parts.drop_last();
        assert forall|i: int| 0 <= i < init.len() implies !(#[trigger] init[i]).contains(sep) by {
            assert(init[i] == parts[i]);
        }
        lemma_split_join(init, sep);
        lemma_split_concat(join_with(init, sep), parts.last(), sep);
        assert(!parts[parts.len() - 1].contains(sep));
        lemma_split_no_sep(parts.last(), sep);
        assert(init + seq![parts.last()] =~= parts);
    }
}

/// A group name never holds `+`.
proof fn lemma_group_name_has_no_plus(g: Seq<char>)
    requires
        is_group_name(g),
    ensures
        !g.contains('+'),
{
    if g.contains('+') {
        let k = choose|k: int| 0 <= k < g.len() && g[k] == '+';
        assert(is_group_char(g[k]));
    }
}

/// A path whose pieces are all group names is exactly those names joined with `+`.
pub proof fn lemma_valid_path_is_joined_groups(path: Seq<char>)
    requires
        path_is_valid(path),
    ensures
        join_with(path_groups(path), '+') == path,
        path_groups(path).len() >= 1,
{
    lemma_join_split(path, '+');
    lemma_split_nonempty(path, '+');
}

/// Any non-empty list of group names, joined with `+`, is a valid path that lists them back.
pub proof fn lemma_joined_groups_parse_back(groups: Seq<Seq<char>>)
    requires
        groups.len() >= 1,
        forall|i: int| 0 <= i < groups.len() ==> is_group_name(#[trigger] groups[i]),
    ensures
        path_groups(join_with(groups, '+')) == groups,
        path_is_valid(join_with(groups, '+')),
{
    assert forall|i: int| 0 <= i < groups.len() implies !(#[trigger] groups[i]).contains('+') by {
        lemma_group_name_has_no_plus(groups[i]);
    }
    lemma_split_join(groups, '+');
}

/// Reads the groups of a calendar path such as `work+home`: the pieces between
/// `+` signs, each checked with [`validate_group`]. The first piece that is not a
/// group name is refused with `InvalidGroupFormat`.
pub fn groups_from_path(path: &str) -> (r: Result<Vec<String>, Error>)
    ensures
        r is Ok <==> path_is_valid(path@),
        r matches Ok(gs) ==> gs@.map_values(|g: String| g@) == path_groups(path@),
        r matches Err(e) ==> exists|k: int| {
            &&& 0 <= k < path_groups(path@).len()
            &&& !is_group_name(#[trigger] path_groups(path@)[k])
            &&& forall|j: int| 0 <= j < k ==> is_group_name(path_groups(path@)[j])
            &&& e matches Error::InvalidGroupFormat(n) && n@ == path_groups(path@)[k]
        },
{
    let ghost p = path@;
    let n = path.unicode_len();
    let mut groups: Vec<String> = Vec::new();
    let mut start: usize = 0;
    let mut i: usize = 0;
    assert(p.take(0) =~= Seq::<char>::empty());
    assert(p.subrange(0, 0) =~= Seq::<char>::empty());
    while i < n
        invariant
            n == p.len(),
            p == path@,
            0 <= start <= i <= n,
            split_on(p.take(i as int), '+') == groups@.map_values(|g: String| g@) + seq![p.subrange(start as int, i as int)],
            forall|j: int| 0 <= j < groups@.len() ==> is_group_name(#[trigger] groups@[j]@),
        decreases n - i,
    {
        let ghost done = groups@.map_values(|g: String| g@);
        let c = path.get_char(i);
        assert(p.take(i + 1).drop_last() =~= p.take(i as int));
        assert(p.take(i + 1).last() == c);
        if c == '+' {
            let seg = path.substring_char(start, i);
            match validate_group(seg) {
                Ok(_) => {
                    groups.push(seg.to_owned());
                    assert(groups@.map_values(|g: String| g@) =~= done.push(seg@));
                    assert(p.subrange(i + 1, i + 1) =~= Seq::<char>::empty());
                    assert(split_on(p.take(i + 1), '+') =~= groups@.map_values(|g: String| g@)
                        + seq![p.subrange(i + 1, i + 1)]);
                    start = i + 1;
                },
                Err(e) => {
                    proof {
                        let rest = p.skip(i + 1);
                        assert(p =~= p.take(i as int) + seq!['+'] + rest);
                        lemma_split_concat(p.take(i as int), rest, '+');
                        let k = done.len() as int;
                        assert(path_groups(p)[k] == seg@);
                        assert forall|j: int| 0 <= j < k implies is_group_name(path_groups(p)[j]) by {
                            assert(path_groups(p)[j] == done[j]);
                            assert(done[j] == groups@[j]@);
                        }
                        assert(!path_is_valid(p));
                    }
                    return Err(e);
                },
            }
        } else {
            assert(p.subrange(start as int, i + 1) =~= p.subrange(start as int, i as int).push(c));
            assert(split_on(p.take(i + 1), '+') =~= groups@.map_values(|g: String| g@)
                + seq![p.subrange(start as int, i + 1)]);
        }
        i = i + 1;
    }
    assert(p.take(n as int) =~= p);
    let ghost done = groups@.map_values(|g: String| g@);
    let seg = path.substring_char(start, n);
    match validate_group(seg) {
        Ok(_) => {
            groups.push(seg.to_owned());
            assert(groups@.map_values(|g: String| g@) =~= path_groups(p));
            assert(path_is_valid(p)) by {
                assert forall|j: int| 0 <= j < path_groups(p).len() implies is_group_name(#[trigger] path_groups(p)[j]) by {
                    assert(path_groups(p)[j] == groups@[j]@);
                }
            }
            Ok(groups)
        },
        Err(e) => {
            proof {
                let k = done.len() as int;
                assert(path_groups(p)[k] == seg@);
                assert forall|j: int| 0 <= j < k implies is_group_name(path_groups(p)[j]) by {
                    assert(path_groups(p)[j] == done[j]);
                    assert(done[j] == groups@[j]@);
                }
            }
            Err(e)
        },
    }
}

} // verus!
