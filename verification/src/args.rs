//! The kernel command line: whitespace-separated `key=value` entries.
use vstd::prelude::*;

verus! {

/// The Unicode `White_Space` property, which `char::is_whitespace` tests.
pub open spec fn spec_is_whitespace(c: char) -> bool {
    ||| ('\u{9}' <= c && c <= '\u{d}')
    ||| c == ' '
    ||| c == '\u{85}'
    ||| c == '\u{a0}'
    ||| c == '\u{1680}'
    ||| ('\u{2000}' <= c && c <= '\u{200a}')
    ||| c == '\u{2028}'
    ||| c == '\u{2029}'
    ||| c == '\u{202f}'
    ||| c == '\u{205f}'
    ||| c == '\u{3000}'
}

/// Whether `c` is white space in the sense of Unicode.
pub fn is_whitespace(c: char) -> (r: bool)
    ensures
        r == spec_is_whitespace(c),
{
    (c >= '\u{9}' && c <= '\u{d}') || c == ' ' || c == '\u{85}' || c == '\u{a0}' || c == '\u{1680}'
        || (c >= '\u{2000}' && c <= '\u{200a}') || c == '\u{2028}' || c == '\u{2029}' || c
        == '\u{202f}' || c == '\u{205f}' || c == '\u{3000}'
}

/// The end of the run of non-white-space characters that starts at `i`.
pub open spec fn token_end(s: Seq<char>, i: int) -> int
    decreases s.len() - i,
{
    if i < 0 || i >= s.len() || spec_is_whitespace(s[i]) {
        i
    } else {
        token_end(s, i + 1)
    }
}

pub proof fn lemma_token_end(s: Seq<char>, i: int)
    requires
        0 <= i <= s.len(),
    ensures
        i <= token_end(s, i) <= s.len(),
        token_end(s, i) < s.len() ==> spec_is_whitespace(s[token_end(s, i)]),
        forall|k: int| i <= k < token_end(s, i) ==> !spec_is_whitespace(#[trigger] s[k]),
    decreases s.len() - i,
{
    if i < s.len() && !spec_is_whitespace(s[i]) {
        lemma_token_end(s, i + 1);
    }
}

/// The words of `s`: its maximal runs of non-white-space characters, in order.
pub open spec fn split_whitespace(s: Seq<char>) -> Seq<Seq<char>>
    decreases s.len(),
{
    if s.len() == 0 {
        seq![]
    } else if spec_is_whitespace(s[0]) {
        split_whitespace(s.subrange(1, s.len() as int))
    } else {
        proof {
            lemma_token_end(s, 0);
        }
        let e = token_end(s, 0);
        seq![s.subrange(0, e)] + split_whitespace(s.subrange(e, s.len() as int))
    }
}

/// Position of the first `=` in `t` from `i` on, or the end of `t`.
pub open spec fn first_eq(t: Seq<char>, i: int) -> int
    decreases t.len() - i,
{
    if i < 0 || i >= t.len() || t[i] == '=' {
        i
    } else {
        first_eq(t, i + 1)
    }
}

pub proof fn lemma_first_eq(t: Seq<char>, i: int)
    requires
        0 <= i <= t.len(),
    ensures
        i <= first_eq(t, i) <= t.len(),
        first_eq(t, i) < t.len() ==> t[first_eq(t, i)] == '=',
        forall|k: int| i <= k < first_eq(t, i) ==> #[trigger] t[k] != '=',
    decreases t.len() - i,
{
    if i < t.len() && t[i] != '=' {
        lemma_first_eq(t, i + 1);
    }
}

/// The value a word gives the init program: for a word `init=value` (split at
/// its first `=`), the value.
pub open spec fn init_entry(t: Seq<char>) -> Option<Seq<char>> {
    let k = first_eq(t, 0);
    if k < t.len() && t.subrange(0, k) == seq!['i', 'n', 'i', 't'] {
        Some(t.subrange(k + 1, t.len() as int))
    } else {
        None
    }
}

/// The init program named by the words, the last naming one winning; `cur` if none does.
pub open spec fn fold_init(words: Seq<Seq<char>>, cur: Option<Seq<char>>) -> Option<Seq<char>>
    decreases words.len(),
{
    if words.len() == 0 {
        cur
    } else {
        fold_init(
            words.subrange(1, words.len() as int),
            match init_entry(words[0]) {
                Some(v) => Some(v),
                None => cur,
            },
        )
    }
}

#[derive(Debug)]
pub struct KernelArgs<'cmdline> {
    init_program: &'cmdline str,
}

impl<'cmdline> KernelArgs<'cmdline> {
    pub closed spec fn spec_init_program(&self) -> Seq<char> {
        self.init_program@
    }

    /// Path of the program to start first.
    pub fn init_program(&self) -> (r: &'cmdline str)
        ensures
            r@ == self.spec_init_program(),
    {
        self.init_program
    }

    /// Reads the kernel command line. The program to start first is the value
    /// of its last `init=` entry, `/bin/init` without one; other entries are ignored.
    pub fn parse(cmdline: &'cmdline str) -> (r: Self)
        ensures
            r.spec_init_program() == match fold_init(split_whitespace(cmdline@), None) {
                Some(v) => v,
                None => "/bin/init"@,
            },
            (forall|k: int| 0 <= k < cmdline@.len() ==> #[trigger] cmdline@[k] != '=')
                ==> r.spec_init_program() == "/bin/init"@,
    {
        proof {
            if forall|k: int| 0 <= k < cmdline@.len() ==> #[trigger] cmdline@[k] != '=' {
                lemma_no_assignment_names_nothing(cmdline@, None);
            }
        }
        let mut args = KernelArgs { init_program: "/bin/init" };
        let ghost s = cmdline@;
        let n = cmdline.unicode_len();
        let mut found = false;
        let mut i: usize = 0;
        assert(s.subrange(0, n as int) =~= s);
        while i < n
            invariant
                n == s.len(),
                s == cmdline@,
                i <= n,
                fold_init(split_whitespace(s.subrange(i as int, n as int)), if found {
                    Some(args.init_program@)
                } else {
                    None
                }) == fold_init(split_whitespace(s), None),
                !found ==> args.init_program@ == "/bin/init"@,
            decreases n - i,
        {
            let ghost rest = s.subrange(i as int, n as int);
            let c = cmdline.get_char(i);
            if is_whitespace(c) {
                assert(rest.subrange(1, rest.len() as int) =~= s.subrange(i + 1, n as int));
                i = i + 1;
            } else {
                let a = i;
                let mut eq: usize = n;
                while i < n && !is_whitespace(cmdline.get_char(i))
                    invariant
                        n == s.len(),
                        s == cmdline@,
                        a <= i <= n,
                        forall|k: int| a <= k < i ==> !spec_is_whitespace(#[trigger] s[k]),
                        eq == n ==> forall|k: int| a <= k < i ==> #[trigger] s[k] != '=',
                        eq != n ==> a <= eq < i && s[eq as int] == '=' && forall|k: int|
                            a <= k < eq ==> #[trigger] s[k] != '=',
                    decreases n - i,
                {
                    if eq == n && cmdline.get_char(i) == '=' {
                        eq = i;
                    }
                    i = i + 1;
                }
                let ghost t = s.subrange(a as int, i as int);
                proof {
                    lemma_token_end(rest, 0);
                    assert forall|k: int| 0 <= k < i - a implies !spec_is_whitespace(#[trigger] rest[k]) by {
                        assert(rest[k] == s[a + k]);
                    }
                    if i < n {
                        assert(spec_is_whitespace(rest[i - a]));
                    }
                    lemma_token_end_exact(rest, (i - a) as int);
                    assert(rest.subrange(0, (i - a) as int) =~= t);
                    assert(rest.subrange((i - a) as int, rest.len() as int) =~= s.subrange(
                        i as int,
                        n as int,
                    ));
                    lemma_first_eq(t, 0);
                    if eq == n {
                        assert forall|k: int| 0 <= k < t.len() implies #[trigger] t[k] != '=' by {
                            assert(t[k] == s[a + k]);
                        }
                        lemma_first_eq_none(t, 0);
                    } else {
                        assert forall|k: int| 0 <= k < eq - a implies #[trigger] t[k] != '=' by {
                            assert(t[k] == s[a + k]);
                        }
                        lemma_first_eq_at(t, 0, (eq - a) as int);
                    }
                }
                if eq != n && eq - a == 4 && cmdline.get_char(a) == 'i' && cmdline.get_char(a + 1)
                    == 'n' && cmdline.get_char(a + 2) == 'i' && cmdline.get_char(a + 3) == 't' {
                    assert(t.subrange(0, 4) =~= seq!['i', 'n', 'i', 't']);
                    let value = cmdline.substring_char(eq + 1, i);
                    assert(value@ =~= t.subrange(eq - a + 1, t.len() as int));
                    args.init_program = value;
                    found = true;
                } else {
                    assert(init_entry(t) is None) by {
                        let key = seq!['i', 'n', 'i', 't'];
                        assert(key.len() == 4);
                        if eq != n {
                            assert(first_eq(t, 0) == eq - a);
                            assert(t.subrange(0, eq - a).len() == eq - a);
                        }
                        if eq != n && eq - a == 4 {
                            assert(key[0] == 'i' && key[1] == 'n' && key[2] == 'i' && key[3] == 't');
                            assert(t.subrange(0, 4)[0] == s[a as int]);
                            assert(t.subrange(0, 4)[1] == s[a + 1]);
                            assert(t.subrange(0, 4)[2] == s[a + 2]);
                            assert(t.subrange(0, 4)[3] == s[a + 3]);
                        }
                    }
                }
                let ghost words = split_whitespace(rest);
                assert(words.subrange(1, words.len() as int) =~= split_whitespace(
                    s.subrange(i as int, n as int),
                ));
            }
        }
        args
    }
}

/// The token that starts at 0 ends at `e` when everything before `e` is
/// non-white-space and `e` is the end or white space.
proof fn lemma_token_end_exact(s: Seq<char>, e: int)
    requires
        0 <= e <= s.len(),
        forall|k: int| 0 <= k < e ==> !spec_is_whitespace(#[trigger] s[k]),
        e < s.len() ==> spec_is_whitespace(s[e]),
    ensures
        token_end(s, 0) == e,
{
    lemma_token_end_from(s, 0, e);
}

proof fn lemma_token_end_from(s: Seq<char>, i: int, e: int)
    requires
        0 <= i <= e <= s.len(),
        forall|k: int| i <= k < e ==> !spec_is_whitespace(#[trigger] s[k]),
        e < s.len() ==> spec_is_whitespace(s[e]),
    ensures
        token_end(s, i) == e,
    decreases e - i,
{
    if i < e {
        lemma_token_end_from(s, i + 1, e);
    }
}

proof fn lemma_first_eq_none(t: Seq<char>, i: int)
    requires
        0 <= i <= t.len(),
        forall|k: int| i <= k < t.len() ==> #[trigger] t[k] != '=',
    ensures
        first_eq(t, i) == t.len(),
    decreases t.len() - i,
{
    if i < t.len() {
        lemma_first_eq_none(t, i + 1);
    }
}

proof fn lemma_first_eq_at(t: Seq<char>, i: int, e: int)
    requires
        0 <= i <= e < t.len(),
        t[e] == '=',
        forall|k: int| i <= k < e ==> #[trigger] t[k] != '=',
    ensures
        first_eq(t, i) == e,
    decreases e - i,
{
    if i < e {
        lemma_first_eq_at(t, i + 1, e);
    }
}

/// A command line with no `=` in it names no init program, whatever its words.
pub proof fn lemma_no_assignment_names_nothing(s: Seq<char>, cur: Option<Seq<char>>)
    requires
        forall|k: int| 0 <= k < s.len() ==> #[trigger] s[k] != '=',
    ensures
        fold_init(split_whitespace(s), cur) == cur,
    decreases s.len(),
{
    if s.len() > 0 {
        if spec_is_whitespace(s[0]) {
            let rest = s.subrange(1, s.len() as int);
            assert forall|k: int| 0 <= k < rest.len() implies #[trigger] rest[k] != '=' by {
                assert(rest[k] == s[k + 1]);
            }
            lemma_no_assignment_names_nothing(rest, cur);
        } else {
            lemma_token_end(s, 0);
            let e = token_end(s, 0);
            let t = s.subrange(0, e);
            let rest = s.subrange(e, s.len() as int);
            assert forall|k: int| 0 <= k < t.len() implies #[trigger] t[k] != '=' by {
                assert(t[k] == s[k]);
            }
            lemma_first_eq_none(t, 0);
            assert(init_entry(t) is None);
            assert forall|k: int| 0 <= k < rest.len() implies #[trigger] rest[k] != '=' by {
                assert(rest[k] == s[k + e]);
            }
            lemma_no_assignment_names_nothing(rest, cur);
            let words = split_whitespace(s);
            assert(words == seq![t] + split_whitespace(rest));
            assert(words[0] == t);
            assert(words.subrange(1, words.len() as int) =~= split_whitespace(rest));
        }
    }
}

/// A command line that is the single word `init=` followed by a value names
/// that value as the init program.
pub proof fn lemma_init_word_names_program(v: Seq<char>)
    requires
        forall|k: int| 0 <= k < v.len() ==> !spec_is_whitespace(#[trigger] v[k]),
    ensures
        fold_init(split_whitespace(seq!['i', 'n', 'i', 't', '='] + v), None) == Some(v),
{
    let t = seq!['i', 'n', 'i', 't', '='] + v;
    assert forall|k: int| 0 <= k < t.len() implies !spec_is_whitespace(#[trigger] t[k]) by {
        if k >= 5 {
            assert(t[k] == v[k - 5]);
        }
    }
    lemma_token_end_exact(t, t.len() as int);
    assert(t.subrange(0, t.len() as int) =~= t);
    let empty = t.subrange(t.len() as int, t.len() as int);
    assert(empty.len() == 0);
    assert(split_whitespace(empty) =~= Seq::<Seq<char>>::empty());
    let words = split_whitespace(t);
    assert(words =~= seq![t]);
    lemma_first_eq_at(t, 0, 4);
    assert(t.subrange(0, 4) =~= seq!['i', 'n', 'i', 't']);
    assert(t.subrange(5, t.len() as int) =~= v);
    assert(init_entry(t) == Some(v));
    assert(words.subrange(1, words.len() as int) =~= Seq::<Seq<char>>::empty());
    assert(words[0] == t);
    assert(fold_init(Seq::<Seq<char>>::empty(), Some(v)) == Some(v));
    assert(fold_init(words, None) == fold_init(words.subrange(1, words.len() as int), Some(v)));
}

} // verus!
