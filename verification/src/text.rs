//! Character-sequence utilities: escaping, splitting, joining and counting.
//!
//! All executable functions are specified against sequence-level spec
//! functions; the split and join specs are written back-to-front so that
//! appending one character unfolds to one recursion step.

use vstd::prelude::*;
use vstd::string::StrSliceExecFns;

verus! {

/// The cell text with every separator and newline character replaced by a space.
pub open spec fn escaped(s: Seq<char>, sep: char) -> Seq<char> {
    s.map_values(|c: char| if c == sep || c == '\n' { ' ' } else { c })
}

/// How many times character `c` occurs in `s`.
pub open spec fn count_char(s: Seq<char>, c: char) -> nat
    decreases s.len(),
{
    if s.len() == 0 {
        0
    } else {
        count_char(s.drop_last(), c) + if s.last() == c { 1nat } else { 0nat }
    }
}

/// Splitting `s` on delimiter `d`: one part more than there are delimiters,
/// empty parts included (so the empty string has one empty part).
pub open spec fn spec_split(s: Seq<char>, d: char) -> Seq<Seq<char>>
    decreases s.len(),
{
    if s.len() == 0 {
        seq![Seq::<char>::empty()]
    } else {
        let prev = spec_split(s.drop_last(), d);
        if s.last() == d {
            prev.push(Seq::<char>::empty())
        } else {
            prev.update(prev.len() - 1, prev.last().push(s.last()))
        }
    }
}

/// Joining `parts` with a single separator character between adjacent parts.
pub open spec fn spec_joined(parts: Seq<Seq<char>>, sep: char) -> Seq<char>
    decreases parts.len(),
{
    if parts.len() == 0 {
        Seq::<char>::empty()
    } else if parts.len() == 1 {
        parts[0]
    } else {
        spec_joined(parts.drop_last(), sep).push(sep) + parts.last()
    }
}

/// A sequence in which `c` occurs nowhere has occurrence count zero.
pub proof fn lemma_count_char_absent(s: Seq<char>, c: char)
    requires
        forall|i: int| 0 <= i < s.len() ==> s[i] != c,
    ensures
        count_char(s, c) == 0,
    decreases s.len(),
{
    if s.len() > 0 {
        lemma_count_char_absent(s.drop_last(), c);
    }
}

/// Occurrence counts add up over concatenation.
pub proof fn lemma_count_char_add(a: Seq<char>, b: Seq<char>, c: char)
    ensures
        count_char(a + b, c) == count_char(a, c) + count_char(b, c),
    decreases b.len(),
{
    if b.len() == 0 {
        assert(a + b =~= a);
    } else {
        lemma_count_char_add(a, b.drop_last(), c);
        assert((a + b).drop_last() =~= a + b.drop_last());
        assert((a + b).last() == b.last());
    }
}

/// Joining parts that are each free of the separator yields exactly
/// one separator per adjacent pair of parts.
pub proof fn lemma_joined_count(parts: Seq<Seq<char>>, sep: char)
    requires
        forall|k: int| 0 <= k < parts.len() ==> count_char(#[trigger] parts[k], sep) == 0,
    ensures
        parts.len() == 0 ==> count_char(spec_joined(parts, sep), sep) == 0,
        parts.len() >= 1 ==> count_char(spec_joined(parts, sep), sep) == parts.len() - 1,
    decreases parts.len(),
{
    if parts.len() <= 1 {
    } else {
        lemma_joined_count(parts.drop_last(), sep);
        let front = spec_joined(parts.drop_last(), sep);
        assert(front.push(sep) =~= front + seq![sep]);
        lemma_count_char_add(front, seq![sep], sep);
        assert(count_char(seq![sep], sep) == 1) by {
            assert(seq![sep].drop_last() =~= Seq::<char>::empty());
            assert(count_char(Seq::<char>::empty(), sep) == 0);
            assert(seq![sep].last() == sep);
        }
        lemma_count_char_add(front + seq![sep], parts.last(), sep);
    }
}

/// The characters of `s`, in order, as a vector.
pub fn chars_of(s: &str) -> (r: Vec<char>)
    ensures
        r@ == s@,
{
    let n = s.unicode_len();
    let mut r: Vec<char> = Vec::new();
    let mut i: usize = 0;
    while i < n
        invariant
            i <= n,
            n == s@.len(),
            r@ == s@.take(i as int),
        decreases n - i,
    {
        let c = s.get_char(i);
        r.push(c);
        proof {
            assert(s@.take(i as int).push(s@[i as int]) =~= s@.take(i as int + 1));
        }
        i = i + 1;
    }
    proof {
        assert(s@.take(n as int) =~= s@);
    }
    r
}

/// Relies on `String: FromIterator<char>`: collecting characters yields
/// the string made of exactly those characters in order.
#[verifier::external_body]
pub(crate) fn chars_to_string(v: &Vec<char>) -> (s: String)
    ensures
        s@ == v@,
{
    v.iter().collect()
}

/// Character-for-character string equality.
pub fn str_eq(a: &str, b: &str) -> (r: bool)
    ensures
        r == (a@ == b@),
{
    let na = a.unicode_len();
    let nb = b.unicode_len();
    if na != nb {
        return false;
    }
    let mut i: usize = 0;
    while i < na
        invariant
            i <= na,
            na == a@.len(),
            na == b@.len(),
            forall|j: int| 0 <= j < i ==> a@[j] == b@[j],
        decreases na - i,
    {
        if a.get_char(i) != b.get_char(i) {
            return false;
        }
        i = i + 1;
    }
    proof {
        assert(a@ =~= b@);
    }
    true
}

/// The cell text with separator and newline characters replaced by spaces.
pub fn escape_cell(s: &str, sep: char) -> (r: String)
    ensures
        r@ == escaped(s@, sep),
{
    let n = s.unicode_len();
    let mut out: Vec<char> = Vec::new();
    let mut i: usize = 0;
    while i < n
        invariant
            i <= n,
            n == s@.len(),
            out@ == escaped(s@.take(i as int), sep),
        decreases n - i,
    {
        let c = s.get_char(i);
        if c == sep || c == '\n' {
            out.push(' ');
        } else {
            out.push(c);
        }
        proof {
            assert(out@ =~= escaped(s@.take(i as int + 1), sep));
        }
        i = i + 1;
    }
    proof {
        assert(s@.take(n as int) =~= s@);
    }
    chars_to_string(&out)
}

/// The parts of `s` delimited by `d`, per `spec_split`.
pub fn split_on(s: &str, d: char) -> (r: Vec<String>)
    ensures
        r.deep_view() == spec_split(s@, d),
{
    let n = s.unicode_len();
    let mut done: Vec<String> = Vec::new();
    let mut cur: Vec<char> = Vec::new();
    let mut i: usize = 0;
    while i < n
        invariant
            i <= n,
            n == s@.len(),
            done.deep_view().push(cur@) == spec_split(s@.take(i as int), d),
        decreases n - i,
    {
        let ghost pre = s@.take(i as int);
        let ghost prev = spec_split(pre, d);
        proof {
            assert(s@.take(i as int + 1).drop_last() =~= pre);
        }
        let c = s.get_char(i);
        if c == d {
            let part = chars_to_string(&cur);
            done.push(part);
            cur = Vec::new();
            proof {
                assert(done.deep_view() =~= prev);
                assert(done.deep_view().push(cur@) =~= spec_split(s@.take(i as int + 1), d));
            }
        } else {
            cur.push(c);
            proof {
                assert(done.deep_view().push(cur@) =~= prev.update(
                    prev.len() - 1,
                    prev.last().push(c),
                ));
            }
        }
        i = i + 1;
    }
    let part = chars_to_string(&cur);
    done.push(part);
    proof {
        assert(s@.take(n as int) =~= s@);
        assert(done.deep_view() =~= spec_split(s@, d));
    }
    done
}

/// Whether some element of `tokens` equals `t`, compared as character sequences.
pub fn contains_token(tokens: &Vec<String>, t: &str) -> (r: bool)
    ensures
        r == tokens.deep_view().contains(t@),
{
    let n = tokens.len();
    let mut i: usize = 0;
    while i < n
        invariant
            i <= n,
            n == tokens@.len(),
            forall|j: int| 0 <= j < i ==> tokens.deep_view()[j] != t@,
        decreases n - i,
    {
        if str_eq(tokens[i].as_str(), t) {
            proof {
                assert(tokens.deep_view()[i as int] == t@);
            }
            return true;
        }
        i = i + 1;
    }
    proof {
        assert(forall|j: int| 0 <= j < tokens.deep_view().len() ==> tokens.deep_view()[j] != t@);
    }
    false
}

} // verus!
