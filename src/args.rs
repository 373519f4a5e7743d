//! Normalisation of raw command-line arguments into a stream of tokens.
//!
//! Bundled short flags are split (`-qf` gives `-q`, `-f`), `--flag=value` is
//! split in two, and everything after a bare `--` passes through untouched.
use vstd::prelude::*;

use crate::text::{
    contains_char, dash_and_char, find_first_in, first_index_in, is_digit, strs, substring,
};

verus! {

/// The argument that ends option processing.
pub open spec fn is_double_dash(a: Seq<char>) -> bool {
    a == seq!['-', '-']
}

/// Tokens of a cluster of bundled short flags, given the characters after the
/// leading dash. A flag that takes a value ends the cluster; whatever follows
/// it becomes one token, its value.
pub open spec fn cluster_tokens(f: Seq<char>, shorts_with_val: Seq<char>) -> Seq<Seq<char>>
    decreases f.len(),
{
    if f.len() == 0 {
        seq![]
    } else if shorts_with_val.contains(f[0]) {
        if f.len() == 1 {
            seq![seq!['-', f[0]]]
        } else {
            seq![seq!['-', f[0]], f.drop_first()]
        }
    } else {
        seq![seq!['-', f[0]]] + cluster_tokens(f.drop_first(), shorts_with_val)
    }
}

/// Tokens of a long flag: `--flag=value` splits at its first `=` when the part
/// before it is longer than the two dashes; anything else stays whole.
pub open spec fn long_tokens(a: Seq<char>) -> Seq<Seq<char>> {
    let k = first_index_in(a, seq!['=']);
    if 2 < k < a.len() {
        seq![a.subrange(0, k), a.subrange(k + 1, a.len() as int)]
    } else {
        seq![a]
    }
}

/// Tokens of one argument read before any `--`, other than `--` itself.
pub open spec fn arg_tokens(a: Seq<char>, shorts_with_val: Seq<char>) -> Seq<Seq<char>> {
    if a.len() >= 2 && a[0] == '-' && a[1] == '-' {
        long_tokens(a)
    } else if a.len() >= 3 && a[0] == '-' && !is_digit(a[1]) {
        cluster_tokens(a.drop_first(), shorts_with_val)
    } else {
        seq![a]
    }
}

/// The whole token stream for `args`.
pub open spec fn expansion(args: Seq<Seq<char>>, shorts_with_val: Seq<char>) -> Seq<Seq<char>>
    decreases args.len(),
{
    if args.len() == 0 {
        seq![]
    } else if is_double_dash(args[0]) {
        args.drop_first()
    } else {
        arg_tokens(args[0], shorts_with_val) + expansion(args.drop_first(), shorts_with_val)
    }
}

/// A cluster with no value-taking flag gives one `-x` token per flag.
proof fn lemma_cluster_plain(f: Seq<char>, shorts_with_val: Seq<char>)
    requires
        forall|i: int| 0 <= i < f.len() ==> !shorts_with_val.contains(#[trigger] f[i]),
    ensures
        cluster_tokens(f, shorts_with_val) == Seq::new(f.len(), |i: int| seq!['-', f[i]]),
    decreases f.len(),
{
    if f.len() > 0 {
        let t = f.drop_first();
        assert forall|i: int| 0 <= i < t.len() implies !shorts_with_val.contains(#[trigger] t[i]) by {
            assert(t[i] == f[i + 1]);
        }
        assert(!shorts_with_val.contains(f[0]));
        lemma_cluster_plain(t, shorts_with_val);
        assert(cluster_tokens(f, shorts_with_val) =~= Seq::new(f.len(), |i: int| seq!['-', f[i]]));
    } else {
        assert(cluster_tokens(f, shorts_with_val) =~= Seq::new(f.len(), |i: int| seq!['-', f[i]]));
    }
}

/// A single argument expands to exactly its own tokens.
proof fn lemma_single(a: Seq<char>, shorts_with_val: Seq<char>)
    requires
        !is_double_dash(a),
    ensures
        expansion(seq![a], shorts_with_val) == arg_tokens(a, shorts_with_val),
{
    assert(seq![a].drop_first() =~= Seq::<Seq<char>>::empty());
    assert(seq![a][0] == a);
    assert(expansion(Seq::<Seq<char>>::empty(), shorts_with_val) == Seq::<Seq<char>>::empty());
    assert(expansion(seq![a], shorts_with_val) =~= arg_tokens(a, shorts_with_val));
}

/// Bundled short flags of which none takes a value (`-abc`) expand to one
/// token per flag (`-a`, `-b`, `-c`), in order.
pub proof fn lemma_bundled_flags_split(flags: Seq<char>, shorts_with_val: Seq<char>)
    requires
        flags.len() >= 1,
        flags[0] != '-',
        !is_digit(flags[0]),
        forall|i: int| 0 <= i < flags.len() ==> !shorts_with_val.contains(#[trigger] flags[i]),
    ensures
        expansion(seq![seq!['-'] + flags], shorts_with_val) == Seq::new(
            flags.len(),
            |i: int| seq!['-', flags[i]],
        ),
{
    let a = seq!['-'] + flags;
    assert(a.drop_first() =~= flags);
    assert(a[1] == flags[0]);
    lemma_single(a, shorts_with_val);
    if flags.len() == 1 {
        assert(a =~= seq!['-', flags[0]]);
        assert(arg_tokens(a, shorts_with_val) =~= Seq::new(
            flags.len(),
            |i: int| seq!['-', flags[i]],
        ));
    } else {
        lemma_cluster_plain(flags, shorts_with_val);
    }
}

/// A value-taking short flag with its value attached (`-dfoo`) expands to the
/// flag and the value (`-d`, `foo`).
pub proof fn lemma_attached_value_split(d: char, value: Seq<char>, shorts_with_val: Seq<char>)
    requires
        d != '-',
        !is_digit(d),
        shorts_with_val.contains(d),
        value.len() >= 1,
    ensures
        expansion(seq![seq!['-', d] + value], shorts_with_val) == seq![seq!['-', d], value],
{
    let a = seq!['-', d] + value;
    let f = a.drop_first();
    assert(f =~= seq![d] + value);
    assert(f.drop_first() =~= value);
    lemma_single(a, shorts_with_val);
}

/// `--name=value` with a non-empty name expands to `--name` and `value`; with an
/// empty name (`--=value`) the argument stays whole.
pub proof fn lemma_long_flag_split(name: Seq<char>, value: Seq<char>, shorts_with_val: Seq<char>)
    requires
        !name.contains('='),
    ensures
        name.len() > 0 ==> expansion(seq![seq!['-', '-'] + name + seq!['='] + value], shorts_with_val)
            == seq![seq!['-', '-'] + name, value],
        name.len() == 0 ==> expansion(seq![seq!['-', '-'] + name + seq!['='] + value], shorts_with_val)
            == seq![seq!['-', '-'] + name + seq!['='] + value],
{
    let a = seq!['-', '-'] + name + seq!['='] + value;
    let k = name.len() as int + 2;
    assert forall|j: int| 0 <= j < k implies !seq!['='].contains(#[trigger] a[j]) by {
        if j >= 2 {
            assert(a[j] == name[j - 2]);
            assert(a[j] != '=');
        }
        assert(seq!['='][0] == '=');
    }
    assert(a[k] == '=');
    assert(seq!['='].contains(a[k]));
    crate::text::lemma_first_index_in(a, seq!['='], k);
    assert(!is_double_dash(a));
    lemma_single(a, shorts_with_val);
    assert(a.subrange(0, k) =~= seq!['-', '-'] + name);
    assert(a.subrange(k + 1, a.len() as int) =~= value);
}

/// An argument that looks like a negative number (`-42`, `-3`) is never split.
pub proof fn lemma_numeric_kept(d: char, rest: Seq<char>, shorts_with_val: Seq<char>)
    requires
        is_digit(d),
    ensures
        expansion(seq![seq!['-', d] + rest], shorts_with_val) == seq![seq!['-', d] + rest],
{
    let a = seq!['-', d] + rest;
    assert(a[1] == d);
    assert(!is_double_dash(a));
    lemma_single(a, shorts_with_val);
}

/// Everything after the first `--` comes out unchanged, further `--` and
/// flag-like arguments included.
pub proof fn lemma_after_double_dash(
    before: Seq<Seq<char>>,
    after: Seq<Seq<char>>,
    shorts_with_val: Seq<char>,
)
    requires
        forall|i: int| 0 <= i < before.len() ==> !is_double_dash(#[trigger] before[i]),
    ensures
        expansion(before + seq![seq!['-', '-']] + after, shorts_with_val) == expansion(
            before,
            shorts_with_val,
        ) + after,
    decreases before.len(),
{
    let all = before + seq![seq!['-', '-']] + after;
    if before.len() == 0 {
        assert(all =~= seq![seq!['-', '-']] + after);
        assert(all.drop_first() =~= after);
        assert(expansion(before, shorts_with_val) + after =~= after);
    } else {
        let t = before.drop_first();
        assert forall|i: int| 0 <= i < t.len() implies !is_double_dash(#[trigger] t[i]) by {
            assert(t[i] == before[i + 1]);
        }
        lemma_after_double_dash(t, after, shorts_with_val);
        assert(all.drop_first() =~= t + seq![seq!['-', '-']] + after);
        assert(all[0] == before[0]);
        assert(expansion(before, shorts_with_val) + after =~= arg_tokens(before[0], shorts_with_val)
            + (expansion(t, shorts_with_val) + after));
    }
}

/// A token stream over a list of arguments, produced one token at a time.
pub struct Preprocessor {
    buf: Vec<String>,
    head: usize,
    args: Vec<String>,
    pos: usize,
    double_dash: bool,
    shorts_with_val: &'static str,
}

impl Preprocessor {
    /// The internal positions are in range.
    pub closed spec fn wf(&self) -> bool {
        self.head <= self.buf.len() && self.pos <= self.args.len()
    }

    /// The short flags that take a value.
    pub closed spec fn shorts(&self) -> Seq<char> {
        self.shorts_with_val@
    }

    /// The tokens still to come, in order.
    pub closed spec fn pending(&self) -> Seq<Seq<char>> {
        let queued = strs(self.buf@.subrange(self.head as int, self.buf.len() as int));
        let rest = strs(self.args@.subrange(self.pos as int, self.args.len() as int));
        if self.double_dash {
            queued + rest
        } else {
            queued + expansion(rest, self.shorts_with_val@)
        }
    }

    /// The next token, if any is left.
    pub fn next(&mut self) -> (r: Option<String>)
        requires
            old(self).wf(),
        ensures
            final(self).wf(),
            final(self).shorts() == old(self).shorts(),
            match r {
                None => old(self).pending().len() == 0 && final(self).pending() == old(self).pending(),
                Some(t) => old(self).pending().len() > 0 && t@ == old(self).pending()[0]
                    && final(self).pending() == old(self).pending().drop_first(),
            },
    {
        let ghost before = self.pending();
        proof {
            assert(strs(self.buf@.subrange(self.head as int, self.buf.len() as int)).len() == self.buf.len() - self.head);
        }
        if self.head < self.buf.len() {
            let t = self.buf[self.head].clone();
            let ghost old_buf = self.buf@;
            let ghost old_head = self.head as int;
            self.head = self.head + 1;
            proof {
                let q0 = strs(old_buf.subrange(old_head, old_buf.len() as int));
                let q1 = strs(old_buf.subrange(old_head + 1, old_buf.len() as int));
                assert(q1 =~= q0.drop_first());
                assert(q0[0] == t@);
                assert(before =~= seq![t@] + self.pending());
            }
            return Some(t);
        }
        proof {
            assert(strs(self.buf@.subrange(self.head as int, self.buf.len() as int)) =~= seq![]);
        }
        if self.pos >= self.args.len() {
            proof {
                assert(strs(self.args@.subrange(self.pos as int, self.args.len() as int)) =~= seq![]);
            }
            return None;
        }
        let ghost rest0 = strs(self.args@.subrange(self.pos as int, self.args.len() as int));
        let ghost rest1 = strs(self.args@.subrange(self.pos + 1, self.args.len() as int));
        proof {
            assert(rest1 =~= rest0.drop_first());
        }
        let a = self.args[self.pos].clone();
        self.pos = self.pos + 1;
        if self.double_dash {
            proof {
                assert(before =~= seq![a@] + self.pending());
            }
            return Some(a);
        }
        if is_double_dash_str(a.as_str()) {
            self.double_dash = true;
            if self.pos >= self.args.len() {
                proof {
                    assert(rest1 =~= seq![]);
                    assert(before =~= self.pending());
                }
                return None;
            }
            let t = self.args[self.pos].clone();
            self.pos = self.pos + 1;
            proof {
                let rest2 = strs(self.args@.subrange(self.pos as int, self.args.len() as int));
                assert(rest2 =~= rest1.drop_first());
                assert(before =~= seq![t@] + self.pending());
            }
            return Some(t);
        }
        let tokens = arg_tokens_exec(a.as_str(), self.shorts_with_val);
        let t = tokens[0].clone();
        self.buf = tokens;
        self.head = 1;
        proof {
            let q = strs(self.buf@.subrange(1, self.buf.len() as int));
            assert(strs(self.buf@) =~= seq![t@] + q);
            assert(before =~= seq![t@] + self.pending());
        }
        Some(t)
    }

    /// Every remaining token, in order.
    pub fn collect_all(&mut self) -> (r: Vec<String>)
        requires
            old(self).wf(),
        ensures
            final(self).wf(),
            strs(r@) == old(self).pending(),
            final(self).pending().len() == 0,
    {
        let mut out: Vec<String> = Vec::new();
        let ghost start = self.pending();
        assert(strs(out@) + start =~= start);
        loop
            invariant
                self.wf(),
                start == old(self).pending(),
                strs(out@) + self.pending() == start,
            decreases self.pending().len(),
        {
            let ghost p = self.pending();
            match self.next() {
                None => {
                    assert(self.pending() == p);
                    assert(p.len() == 0);
                    assert(strs(out@) + p =~= strs(out@));
                    assert(strs(out@) == start);
                    return out;
                },
                Some(t) => {
                    out.push(t);
                    assert(strs(out@) =~= strs(out@.drop_last()) + seq![t@]);
                    assert(strs(out@) + self.pending() =~= start);
                },
            }
        }
    }
}

/// Whether `a` is exactly `--`.
fn is_double_dash_str(a: &str) -> (r: bool)
    ensures
        r == is_double_dash(a@),
{
    let n = a.unicode_len();
    let r = n == 2 && a.get_char(0) == '-' && a.get_char(1) == '-';
    proof {
        if r {
            assert(a@ =~= seq!['-', '-']);
        }
    }
    r
}

/// The tokens of one argument read before any `--`.
fn arg_tokens_exec(a: &str, shorts_with_val: &str) -> (r: Vec<String>)
    ensures
        strs(r@) == arg_tokens(a@, shorts_with_val@),
        r.len() >= 1,
{
    let n = a.unicode_len();
    if n >= 2 && a.get_char(0) == '-' && a.get_char(1) == '-' {
        let k = find_first_in(a, "=");
        proof {
            reveal_strlit("=");
            assert("="@ =~= seq!['=']);
        }
        if 2 < k && k < n {
            let flag = substring(a, 0, k);
            let val = substring(a, k + 1, n);
            let r = vec![flag, val];
            assert(strs(r@) =~= long_tokens(a@));
            r
        } else {
            let r = vec![String::from_str(a)];
            assert(strs(r@) =~= long_tokens(a@));
            r
        }
    } else if n >= 3 && a.get_char(0) == '-' && !is_digit_char(a.get_char(1)) {
        let r = cluster_exec(a, shorts_with_val);
        r
    } else {
        let r = vec![String::from_str(a)];
        assert(strs(r@) =~= seq![a@]);
        r
    }
}

/// Whether `c` is an ASCII decimal digit.
pub fn is_digit_char(c: char) -> (r: bool)
    ensures
        r == is_digit(c),
{
    '0' <= c && c <= '9'
}

/// Tokens of the flag cluster `a`, a dash followed by at least one flag.
fn cluster_exec(a: &str, shorts_with_val: &str) -> (r: Vec<String>)
    requires
        a@.len() >= 2,
    ensures
        strs(r@) == cluster_tokens(a@.drop_first(), shorts_with_val@),
        r.len() >= 1,
{
    let n = a.unicode_len();
    let ghost target = cluster_tokens(a@.drop_first(), shorts_with_val@);
    let mut r: Vec<String> = Vec::new();
    let mut i: usize = 1;
    let mut done = false;
    proof {
        assert(a@.subrange(1, n as int) =~= a@.drop_first());
    }
    while i < n && !done
        invariant
            n == a@.len(),
            1 <= i <= n,
            !done ==> strs(r@) + cluster_tokens(a@.subrange(i as int, n as int), shorts_with_val@)
                == target,
            done ==> strs(r@) == target,
            done || i > 1 ==> r.len() >= 1,
        decreases n - i,
    {
        let c = a.get_char(i);
        let flag = dash_and_char(a, i);
        let ghost f = a@.subrange(i as int, n as int);
        let ghost before = strs(r@);
        r.push(flag);
        proof {
            assert(f[0] == c);
            assert(f.drop_first() =~= a@.subrange(i + 1, n as int));
            assert(strs(r@) =~= before + seq![seq!['-', c]]);
        }
        if contains_char(shorts_with_val, c) {
            if i + 1 < n {
                let val = substring(a, i + 1, n);
                r.push(val);
                assert(strs(r@) =~= before + seq![seq!['-', c], f.drop_first()]);
            } else {
                assert(f.len() == 1);
            }
            done = true;
        } else {
            assert(before + cluster_tokens(f, shorts_with_val@) =~= strs(r@) + cluster_tokens(
                f.drop_first(),
                shorts_with_val@,
            ));
        }
        i = i + 1;
    }
    proof {
        if !done {
            assert(a@.subrange(i as int, n as int).len() == 0);
            assert(strs(r@) =~= target);
        }
    }
    r
}

/// A token stream over `args`, where `shorts_with_val` lists the short flags
/// that take a value.
pub fn preprocess(args: &[String], shorts_with_val: &'static str) -> (r: Preprocessor)
    ensures
        r.wf(),
        r.shorts() == shorts_with_val@,
        r.pending() == expansion(strs(args@), shorts_with_val@),
{
    let mut owned: Vec<String> = Vec::new();
    let mut i: usize = 0;
    while i < args.len()
        invariant
            i <= args@.len(),
            owned@ == args@.subrange(0, i as int),
        decreases args@.len() - i,
    {
        owned.push(args[i].clone());
        i = i + 1;
        assert(owned@ =~= args@.subrange(0, i as int));
    }
    let r = Preprocessor {
        buf: Vec::new(),
        head: 0,
        args: owned,
        pos: 0,
        double_dash: false,
        shorts_with_val,
    };
    proof {
        assert(owned@ =~= args@);
        assert(strs(r.buf@.subrange(0, 0)) =~= seq![]);
        assert(r.args@.subrange(0, r.args.len() as int) =~= args@);
        assert(r.pending() =~= expansion(strs(args@), shorts_with_val@));
    }
    r
}

} // verus!
