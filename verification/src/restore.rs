//! Restoration of escaped newlines in a debug-quoted rendering.
//!
//! A debug rendering shows a newline as the two characters `\` `n`.  For
//! readability the formatter turns those back into literal newlines.  The
//! restoration scans left to right and rewrites each (leftmost,
//! non-overlapping) `\` `n` pair into one newline character; a streaming
//! variant additionally carries a single trailing backslash across write
//! boundaries so that a pair split between two writes is still restored.

use vstd::prelude::*;

verus! {

/// The newline-restored form of `s`: scanning left to right, each leftmost
/// `\` `n` pair becomes one newline; every other character is kept.
pub open spec fn restored(s: Seq<char>) -> Seq<char>
    decreases s.len(),
{
    if s.len() >= 2 && s[0] == '\\' && s[1] == 'n' {
        seq!['\n'] + restored(s.skip(2))
    } else if s.len() >= 1 {
        seq![s[0]] + restored(s.skip(1))
    } else {
        Seq::<char>::empty()
    }
}

/// How many backslashes end `s`.
pub open spec fn trailing_backslashes(s: Seq<char>) -> nat
    decreases s.len(),
{
    if s.len() > 0 && s.last() == '\\' {
        1 + trailing_backslashes(s.drop_last())
    } else {
        0
    }
}

/// The text a streaming restorer processes for one write: the chunk itself,
/// preceded by the backslash held back from the previous write, if any.
pub open spec fn stream_buf(pending: bool, s: Seq<char>) -> Seq<char> {
    if pending {
        seq!['\\'] + s
    } else {
        s
    }
}

/// Whether a write leaves the restorer holding back a trailing backslash:
/// exactly when the processed text ends in an odd number of backslashes.
pub open spec fn stream_holds(pending: bool, s: Seq<char>) -> bool {
    trailing_backslashes(stream_buf(pending, s)) % 2 == 1
}

/// What one write emits: the restored processed text, less the one trailing
/// backslash held back when the backslash run at the end is odd.
pub open spec fn stream_emitted(pending: bool, s: Seq<char>) -> Seq<char> {
    let b = stream_buf(pending, s);
    if trailing_backslashes(b) % 2 == 1 {
        restored(b.drop_last())
    } else {
        restored(b)
    }
}

/// A nonempty input restores to a nonempty output.
pub proof fn lemma_restored_nonempty(s: Seq<char>)
    requires
        s.len() > 0,
    ensures
        restored(s).len() > 0,
{
}

/// The first restored character is the first input character, unless a
/// pair at the front became a newline.
pub proof fn lemma_restored_first(s: Seq<char>)
    requires
        s.len() > 0,
    ensures
        restored(s).len() > 0,
        restored(s)[0] == s[0] || restored(s)[0] == '\n',
{
}

/// The last character is kept, whenever it cannot be the second half of a
/// `\` `n` pair.
pub proof fn lemma_restored_last(s: Seq<char>)
    requires
        s.len() > 0,
        s.last() != 'n',
    ensures
        restored(s).len() > 0,
        restored(s).last() == s.last(),
    decreases s.len(),
{
    if s.len() >= 2 && s[0] == '\\' && s[1] == 'n' {
        assert(s.skip(2).len() > 0) by {
            if s.len() == 2 {
                assert(s.last() == 'n');
            }
        }
        assert(s.skip(2).last() == s.last());
        lemma_restored_last(s.skip(2));
        assert(restored(s) =~= seq!['\n'] + restored(s.skip(2)));
        assert(restored(s).last() == restored(s.skip(2)).last());
    } else if s.len() >= 2 {
        assert(s.skip(1).last() == s.last());
        lemma_restored_last(s.skip(1));
        assert(restored(s) =~= seq![s[0]] + restored(s.skip(1)));
        assert(restored(s).last() == restored(s.skip(1)).last());
    } else {
        assert(s.skip(1).len() == 0);
        assert(restored(s.skip(1)) =~= Seq::<char>::empty());
        assert(restored(s) =~= seq![s[0]]);
    }
}

/// A trailing backslash passes through restoration unchanged.
pub proof fn lemma_restored_drop_trailing_backslash(s: Seq<char>)
    requires
        s.len() > 0,
        s.last() == '\\',
    ensures
        restored(s) == restored(s.drop_last()) + seq!['\\'],
    decreases s.len(),
{
    if s.len() == 1 {
        assert(s.skip(1).len() == 0);
        assert(restored(s.skip(1)) =~= Seq::<char>::empty());
        assert(s.drop_last().len() == 0);
        assert(restored(s.drop_last()) =~= Seq::<char>::empty());
        assert(restored(s) =~= restored(s.drop_last()) + seq!['\\']);
    } else if s[0] == '\\' && s[1] == 'n' {
        assert(s.len() > 2) by {
            if s.len() == 2 {
                assert(s.last() == 'n');
            }
        }
        assert(s.skip(2).last() == s.last());
        lemma_restored_drop_trailing_backslash(s.skip(2));
        assert(s.drop_last()[0] == '\\' && s.drop_last()[1] == 'n');
        assert(s.drop_last().skip(2) =~= s.skip(2).drop_last());
        assert(restored(s) =~= restored(s.drop_last()) + seq!['\\']);
    } else {
        assert(s.skip(1).last() == s.last());
        lemma_restored_drop_trailing_backslash(s.skip(1));
        if s.len() == 2 {
            assert(s.drop_last() =~= seq![s[0]]);
            assert(s.drop_last().skip(1).len() == 0);
            assert(restored(s.drop_last().skip(1)) =~= Seq::<char>::empty());
            assert(restored(s.drop_last()) =~= seq![s[0]]);
            assert(s.skip(1).drop_last().len() == 0);
            assert(restored(s.skip(1)) =~= restored(s.skip(1).drop_last()) + seq!['\\']);
            assert(restored(s.skip(1).drop_last()) =~= Seq::<char>::empty());
            assert(restored(s) =~= restored(s.drop_last()) + seq!['\\']);
        } else {
            assert(s.drop_last().len() >= 2);
            assert(s.drop_last()[0] == s[0] && s.drop_last()[1] == s[1]);
            assert(s.drop_last().skip(1) =~= s.skip(1).drop_last());
            assert(restored(s) =~= restored(s.drop_last()) + seq!['\\']);
        }
    }
}

/// Restoration distributes over concatenation whenever no `\` `n` pair
/// spans the boundary.
pub proof fn lemma_restored_append(u: Seq<char>, v: Seq<char>)
    requires
        u.len() == 0 || v.len() == 0 || u.last() != '\\' || v[0] != 'n',
    ensures
        restored(u + v) == restored(u) + restored(v),
    decreases u.len(),
{
    if u.len() == 0 {
        assert(u + v =~= v);
        assert(restored(u + v) =~= restored(u) + restored(v));
    } else if u.len() >= 2 && u[0] == '\\' && u[1] == 'n' {
        assert((u + v)[0] == '\\' && (u + v)[1] == 'n');
        assert((u + v).skip(2) =~= u.skip(2) + v);
        if u.skip(2).len() > 0 {
            assert(u.skip(2).last() == u.last());
        }
        lemma_restored_append(u.skip(2), v);
        assert(restored(u + v) =~= restored(u) + restored(v));
    } else {
        if u.len() >= 2 {
            assert((u + v)[0] == u[0] && (u + v)[1] == u[1]);
            assert(!(u[0] == '\\' && u[1] == 'n'));
        } else {
            assert(u.last() == u[0]);
            if v.len() > 0 {
                assert((u + v)[1] == v[0]);
            }
        }
        assert(!((u + v).len() >= 2 && (u + v)[0] == '\\' && (u + v)[1] == 'n'));
        assert((u + v).skip(1) =~= u.skip(1) + v);
        if u.skip(1).len() > 0 {
            assert(u.skip(1).last() == u.last());
        }
        lemma_restored_append(u.skip(1), v);
        assert(restored(u + v) =~= restored(u) + restored(v));
    }
}

/// Restoration is idempotent: a restored text contains no `\` `n` pair
/// left to rewrite.
pub proof fn lemma_restored_idempotent(s: Seq<char>)
    ensures
        restored(restored(s)) == restored(s),
    decreases s.len(),
{
    if s.len() >= 2 && s[0] == '\\' && s[1] == 'n' {
        lemma_restored_idempotent(s.skip(2));
        let t = restored(s);
        assert(t[0] == '\n');
        assert(t.skip(1) =~= restored(s.skip(2)));
        assert(restored(t) =~= restored(s));
    } else if s.len() >= 1 {
        lemma_restored_idempotent(s.skip(1));
        let t = restored(s);
        assert(t.skip(1) =~= restored(s.skip(1)));
        if t.len() >= 2 && t[0] == '\\' && t[1] == 'n' {
            assert(s[0] == '\\');
            assert(restored(s.skip(1)).len() > 0);
            assert(t[1] == restored(s.skip(1))[0]);
            lemma_restored_first(s.skip(1));
            assert(s.skip(1).len() > 0);
            assert(s.skip(1)[0] == s[1]);
            assert(s[1] != 'n');
            assert(false);
        }
        assert(restored(t) =~= restored(s));
    }
}

/// One write followed by closing the restorer yields exactly the restored
/// processed text: the held-back backslash is put back at the end.
pub proof fn lemma_stream_chunk_finish(pending: bool, s: Seq<char>)
    ensures
        stream_emitted(pending, s) + (if stream_holds(pending, s) {
            seq!['\\']
        } else {
            Seq::<char>::empty()
        }) == restored(stream_buf(pending, s)),
{
    let b = stream_buf(pending, s);
    if trailing_backslashes(b) % 2 == 1 {
        assert(b.len() > 0 && b.last() == '\\');
        lemma_restored_drop_trailing_backslash(b);
    } else {
        assert(stream_emitted(pending, s) + Seq::<char>::empty() =~= restored(b));
    }
}

/// A buffer ending in an odd run of backslashes may be split at that run
/// across two writes: the two writes and the close together emit exactly
/// the restored whole, with no backslash dropped or duplicated.
pub proof fn lemma_stream_split(s1: Seq<char>, s2: Seq<char>)
    requires
        trailing_backslashes(s1) % 2 == 1,
    ensures
        stream_emitted(false, s1) + stream_emitted(stream_holds(false, s1), s2) + (if stream_holds(
            stream_holds(false, s1),
            s2,
        ) {
            seq!['\\']
        } else {
            Seq::<char>::empty()
        }) == restored(s1 + s2),
{
    assert(s1.len() > 0 && s1.last() == '\\');
    assert(stream_emitted(false, s1) == restored(s1.drop_last()));
    assert(stream_holds(false, s1));
    lemma_stream_chunk_finish(true, s2);
    let v = seq!['\\'] + s2;
    assert(stream_buf(true, s2) == v);
    if s1.drop_last().len() > 0 {
        assert(v[0] == '\\' && v[0] != 'n');
    }
    lemma_restored_append(s1.drop_last(), v);
    assert(s1.drop_last() + v =~= s1 + s2);
    assert(stream_emitted(false, s1) + stream_emitted(true, s2) + (if stream_holds(true, s2) {
        seq!['\\']
    } else {
        Seq::<char>::empty()
    }) =~= restored(s1 + s2));
}

proof fn lemma_trailing_backslashes_value(s: Seq<char>, t: nat)
    requires
        t <= s.len(),
        forall|k: int| s.len() - t <= k < s.len() ==> s[k] == '\\',
        t < s.len() ==> s[s.len() - t - 1] != '\\',
    ensures
        trailing_backslashes(s) == t,
    decreases t,
{
    if t == 0 {
    } else {
        assert(s.last() == '\\');
        assert(forall|k: int|
            s.drop_last().len() - (t - 1) <= k < s.drop_last().len() ==> s.drop_last()[k] == s[k]);
        lemma_trailing_backslashes_value(s.drop_last(), (t - 1) as nat);
    }
}

/// Appends the newline-restored form of `s` to `out`.
fn append_restored(out: &mut String, s: &str)
    ensures
        final(out)@ == old(out)@ + restored(s@),
{
    let n = s.unicode_len();
    let mut i: usize = 0;
    proof {
        assert(s@.skip(0) =~= s@);
        assert(out@.subrange(0, old(out)@.len() as int) =~= old(out)@);
        assert(out@.subrange(old(out)@.len() as int, out@.len() as int) =~= Seq::<char>::empty());
    }
    while i < n
        invariant
            n == s@.len(),
            i <= n,
            out@.len() >= old(out)@.len(),
            out@.subrange(0, old(out)@.len() as int) == old(out)@,
            restored(s@) == out@.subrange(old(out)@.len() as int, out@.len() as int) + restored(
                s@.skip(i as int),
            ),
        decreases n - i,
    {
        let ghost rest = s@.skip(i as int);
        let ghost done = out@.subrange(old(out)@.len() as int, out@.len() as int);
        if i + 1 < n && s.get_char(i) == '\\' && s.get_char(i + 1) == 'n' {
            out.push('\n');
            proof {
                assert(rest.len() >= 2 && rest[0] == '\\' && rest[1] == 'n');
                assert(restored(rest) == seq!['\n'] + restored(rest.skip(2)));
                assert(rest.skip(2) =~= s@.skip(i + 2));
                assert(out@.subrange(0, old(out)@.len() as int) =~= old(out)@);
                assert(out@.subrange(old(out)@.len() as int, out@.len() as int) =~= done.push(
                    '\n',
                ));
                assert(done.push('\n') + restored(s@.skip(i + 2)) =~= done + restored(rest));
            }
            i = i + 2;
        } else {
            let c = s.get_char(i);
            out.push(c);
            proof {
                assert(rest.len() >= 1 && rest[0] == c);
                assert(!(rest.len() >= 2 && rest[0] == '\\' && rest[1] == 'n')) by {
                    if i + 1 < n {
                        assert(rest[1] == s@[i + 1]);
                    }
                }
                assert(restored(rest) == seq![rest[0]] + restored(rest.skip(1)));
                assert(rest.skip(1) =~= s@.skip(i + 1));
                assert(out@.subrange(0, old(out)@.len() as int) =~= old(out)@);
                assert(out@.subrange(old(out)@.len() as int, out@.len() as int) =~= done.push(c));
                assert(done.push(c) + restored(s@.skip(i + 1)) =~= done + restored(rest));
            }
            i = i + 1;
        }
    }
    proof {
        assert(s@.skip(n as int).len() == 0);
        assert(restored(s@.skip(n as int)) =~= Seq::<char>::empty());
        assert(out@ =~= old(out)@ + restored(s@));
    }
}

/// A streaming newline restorer: text arrives in chunks, each chunk is
/// restored as it comes, and a lone trailing backslash is held back until
/// the next write or the close, so that a `\` `n` pair split between two
/// writes is still restored.
pub struct NewlineRestorer {
    out: String,
    pending: bool,
}

impl NewlineRestorer {
    /// The text emitted so far.
    pub closed spec fn emitted(&self) -> Seq<char> {
        self.out@
    }

    /// Whether a trailing backslash is held back from the last write.
    pub closed spec fn holding_backslash(&self) -> bool {
        self.pending
    }

    /// A fresh restorer with nothing written.
    pub fn new() -> (r: Self)
        ensures
            r.emitted() == Seq::<char>::empty(),
            !r.holding_backslash(),
    {
        NewlineRestorer { out: String::new(), pending: false }
    }

    /// Process one chunk of text.
    pub fn write_str(&mut self, s: &str)
        ensures
            final(self).emitted() == old(self).emitted() + stream_emitted(
                old(self).holding_backslash(),
                s@,
            ),
            final(self).holding_backslash() == stream_holds(old(self).holding_backslash(), s@),
    {
        let buf: String = if self.pending {
            proof {
                reveal_strlit("\\");
            }
            let b = String::from_str("\\");
            b.concat(s)
        } else {
            String::from_str(s)
        };
        proof {
            assert(buf@ == stream_buf(old(self).holding_backslash(), s@));
        }
        let n = buf.as_str().unicode_len();
        let mut t: usize = 0;
        while t < n && buf.as_str().get_char(n - 1 - t) == '\\'
            invariant
                n == buf@.len(),
                t <= n,
                forall|k: int| n - t <= k < n ==> buf@[k] == '\\',
            decreases n - t,
        {
            t = t + 1;
        }
        proof {
            lemma_trailing_backslashes_value(buf@, t as nat);
        }
        if t % 2 == 1 {
            let shorter = buf.as_str().substring_char(0, n - 1);
            append_restored(&mut self.out, shorter);
            self.pending = true;
            proof {
                assert(shorter@ =~= buf@.drop_last());
            }
        } else {
            append_restored(&mut self.out, buf.as_str());
            self.pending = false;
        }
    }

    /// Close the restorer: any held-back backslash is appended, and the
    /// whole emitted text is returned.
    pub fn finish(self) -> (r: String)
        ensures
            r@ == self.emitted() + (if self.holding_backslash() {
                seq!['\\']
            } else {
                Seq::<char>::empty()
            }),
    {
        let NewlineRestorer { mut out, pending } = self;
        if pending {
            out.push('\\');
        }
        proof {
            if !pending {
                assert(out@ =~= out@ + Seq::<char>::empty());
            }
        }
        out
    }
}

/// The newline-restored form of `s`, in one step.
pub fn restore_newlines(s: &str) -> (r: String)
    ensures
        r@ == restored(s@),
{
    let mut restorer = NewlineRestorer::new();
    restorer.write_str(s);
    let r = restorer.finish();
    proof {
        lemma_stream_chunk_finish(false, s@);
        assert(Seq::<char>::empty() + stream_emitted(false, s@) =~= stream_emitted(false, s@));
    }
    r
}

} // verus!
