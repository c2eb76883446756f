//! Letter bookkeeping of the hangman game: how often each letter of the
//! secret word has been revealed, whether a guess uncovers one more
//! occurrence, and the masked word shown to the player.

use vstd::prelude::*;

verus! {

/// A table of letter counts, one entry per letter.
pub struct LetterCounts {
    entries: Vec<(char, i32)>,
}

/// The count recorded for `c`, if any (first matching entry).
pub open spec fn lookup(s: Seq<(char, i32)>, c: char) -> Option<i32>
    decreases s.len(),
{
    if s.len() == 0 {
        None
    } else if s[0].0 == c {
        Some(s[0].1)
    } else {
        lookup(s.subrange(1, s.len() as int), c)
    }
}

impl View for LetterCounts {
    type V = Seq<(char, i32)>;

    closed spec fn view(&self) -> Seq<(char, i32)> {
        self.entries@
    }
}

impl LetterCounts {
    pub fn new() -> (r: LetterCounts)
        ensures
            r@ == Seq::<(char, i32)>::empty(),
    {
        LetterCounts { entries: Vec::new() }
    }

    /// The count recorded for `c`, if any.
    pub fn get(&self, c: char) -> (r: Option<i32>)
        ensures
            r == lookup(self@, c),
    {
        let n = self.entries.len();
        proof {
            assert(self@.subrange(0, n as int) =~= self@);
        }
        for i in 0..n
            invariant
                n == self@.len(),
                lookup(self@, c) == lookup(self@.subrange(i as int, n as int), c),
        {
            proof {
                assert(self@.subrange(i as int, n as int).subrange(
                    1,
                    (n - i) as int,
                ) =~= self@.subrange(i + 1, n as int));
            }
            if self.entries[i].0 == c {
                return Some(self.entries[i].1);
            }
        }
        proof {
            assert(self@.subrange(n as int, n as int).len() == 0);
        }
        None
    }
}

impl LetterCounts {
    /// No two entries record the same letter.
    pub open spec fn wf(&self) -> bool {
        forall|i: int, j: int| 0 <= i < j < self@.len() ==> self@[i].0 != self@[j].0
    }

    /// A copy of the table.
    pub fn clone_counts(&self) -> (r: LetterCounts)
        ensures
            r@ == self@,
    {
        let n = self.entries.len();
        let mut entries: Vec<(char, i32)> = Vec::new();
        for i in 0..n
            invariant
                n == self@.len(),
                entries@ == self@.subrange(0, i as int),
        {
            entries.push(self.entries[i]);
            proof {
                assert(entries@ =~= self@.subrange(0, i + 1));
            }
        }
        proof {
            assert(self@.subrange(0, n as int) =~= self@);
        }
        LetterCounts { entries }
    }

    /// Decrements every entry recorded for `c` by one.
    pub fn dec_all(&mut self, c: char)
        requires
            forall|i: int|
                0 <= i < old(self)@.len() && (#[trigger] old(self)@[i]).0 == c ==> old(
                    self,
                )@[i].1 > i32::MIN,
        ensures
            final(self)@ == dec_count(old(self)@, c),
    {
        let n = self.entries.len();
        for i in 0..n
            invariant
                n == self@.len(),
                n == old(self)@.len(),
                forall|j: int|
                    0 <= j < n && (#[trigger] old(self)@[j]).0 == c ==> old(self)@[j].1
                        > i32::MIN,
                forall|j: int|
                    0 <= j < i ==> #[trigger] self@[j] == dec_count(old(self)@, c)[j],
                forall|j: int| i <= j < n ==> #[trigger] self@[j] == old(self)@[j],
        {
            let ghost pre = self@;
            if self.entries[i].0 == c {
                let v = self.entries[i].1;
                self.entries.set(i, (c, v - 1));
            }
            proof {
                assert forall|j: int| 0 <= j < n implies (#[trigger] self@[j]) == (
                    if j == i as int {
                        dec_count(old(self)@, c)[j]
                    } else {
                        pre[j]
                    }) by {
                    // mentions pre[j] so the solver connects the snapshots
                    assert(pre[j] == pre[j]);
                }
            }
        }
        proof {
            assert(self@ =~= dec_count(old(self)@, c));
        }
    }

    /// Notes one more occurrence of `c`: a recorded letter's count grows
    /// by one (every entry for it), an unrecorded letter starts at one.
    pub fn increment(&mut self, c: char)
        requires
            forall|i: int|
                0 <= i < old(self)@.len() && (#[trigger] old(self)@[i]).0 == c ==> old(
                    self,
                )@[i].1 < i32::MAX,
        ensures
            lookup(old(self)@, c) is Some ==> final(self)@ == Seq::new(
                old(self)@.len(),
                |i: int|
                    if old(self)@[i].0 == c {
                        (c, (old(self)@[i].1 + 1) as i32)
                    } else {
                        old(self)@[i]
                    },
            ),
            lookup(old(self)@, c) is None ==> final(self)@ == old(self)@.push((c, 1)),
    {
        let n = self.entries.len();
        let mut found = false;
        for i in 0..n
            invariant
                n == self@.len(),
                n == old(self)@.len(),
                forall|j: int|
                    0 <= j < old(self)@.len() && (#[trigger] old(self)@[j]).0 == c ==> old(
                        self,
                    )@[j].1 < i32::MAX,
                found == exists|j: int| 0 <= j < i && (#[trigger] old(self)@[j]).0 == c,
                forall|j: int|
                    0 <= j < i ==> #[trigger] self@[j] == (if old(self)@[j].0 == c {
                        (c, (old(self)@[j].1 + 1) as i32)
                    } else {
                        old(self)@[j]
                    }),
                forall|j: int| i <= j < n ==> #[trigger] self@[j] == old(self)@[j],
        {
            let ghost pre = self@;
            if self.entries[i].0 == c {
                let v = self.entries[i].1;
                self.entries.set(i, (c, v + 1));
                found = true;
                proof {
                    assert(exists|j: int| 0 <= j < i + 1 && (#[trigger] old(self)@[j]).0 == c);
                }
            }
            proof {
                assert forall|j: int| 0 <= j < n && j != i as int implies #[trigger] self@[j]
                    == pre[j] by {
                    // mentions pre[j] so the solver connects the snapshots
                    assert(pre[j] == pre[j]);
                }
            }
        }
        if !found {
            self.entries.push((c, 1));
            proof {
                lemma_lookup_none(old(self)@, c);
                assert(self@ =~= old(self)@.push((c, 1)));
            }
        } else {
            proof {
                let j = choose|j: int| 0 <= j < n && (#[trigger] old(self)@[j]).0 == c;
                lemma_lookup_some(old(self)@, c, j);
                assert(self@ =~= Seq::new(
                    old(self)@.len(),
                    |i: int|
                        if old(self)@[i].0 == c {
                            (c, (old(self)@[i].1 + 1) as i32)
                        } else {
                            old(self)@[i]
                        },
                ));
            }
        }
    }
}

/// A letter with no entry has no recorded count.
proof fn lemma_lookup_none(s: Seq<(char, i32)>, c: char)
    requires
        forall|j: int| 0 <= j < s.len() ==> (#[trigger] s[j]).0 != c,
    ensures
        lookup(s, c) is None,
    decreases s.len(),
{
    if s.len() > 0 {
        let rest = s.subrange(1, s.len() as int);
        assert(forall|j: int| 0 <= j < rest.len() ==> (#[trigger] rest[j]).0 != c);
        lemma_lookup_none(rest, c);
    }
}

/// A letter with an entry has a recorded count.
proof fn lemma_lookup_some(s: Seq<(char, i32)>, c: char, j: int)
    requires
        0 <= j < s.len(),
        s[j].0 == c,
    ensures
        lookup(s, c) is Some,
    decreases s.len(),
{
    if s[0].0 != c {
        let rest = s.subrange(1, s.len() as int);
        assert(rest[j - 1] == s[j]);
        lemma_lookup_some(rest, c, j - 1);
    }
}

/// The count of the first entry for `c` is the recorded count.
proof fn lemma_lookup_first(s: Seq<(char, i32)>, c: char, j: int)
    requires
        0 <= j < s.len(),
        s[j].0 == c,
        forall|k: int| 0 <= k < j ==> (#[trigger] s[k]).0 != c,
    ensures
        lookup(s, c) == Some(s[j].1),
    decreases s.len(),
{
    if s[0].0 != c {
        let rest = s.subrange(1, s.len() as int);
        assert(rest[j - 1] == s[j]);
        assert(forall|k: int| 0 <= k < j - 1 ==> (#[trigger] rest[k]).0 != c);
        lemma_lookup_first(rest, c, j - 1);
    }
}

/// Whether the guess `c` uncovers one more letter: it must occur in the
/// answer's counts, and either not be revealed yet or be revealed fewer
/// times than the answer holds.
pub fn is_required(cur_map: &LetterCounts, ans_map: &LetterCounts, c: char) -> (r: bool)
    ensures
        r == (match lookup(ans_map@, c) {
            None => false,
            Some(a) => match lookup(cur_map@, c) {
                None => true,
                Some(cu) => a > cu,
            },
        }),
{
    match ans_map.get(c) {
        None => false,
        Some(a) => match cur_map.get(c) {
            None => true,
            Some(cu) => a > cu,
        },
    }
}

/// `counts` with every entry for `c` decremented by one.
pub open spec fn dec_count(s: Seq<(char, i32)>, c: char) -> Seq<(char, i32)> {
    Seq::new(
        s.len(),
        |i: int|
            if s[i].0 == c {
                (c, (s[i].1 - 1) as i32)
            } else {
                s[i]
            },
    )
}

/// The masked form of `word` under the revealed counts: each position
/// shows its letter while that letter still has revealed occurrences
/// left, and a dash otherwise.
pub open spec fn masked_word(counts: Seq<(char, i32)>, word: Seq<char>) -> Seq<char>
    decreases word.len(),
{
    if word.len() == 0 {
        Seq::empty()
    } else {
        let c = word[0];
        let rest = word.subrange(1, word.len() as int);
        match lookup(counts, c) {
            Some(k) => if k > 0 {
                seq![c] + masked_word(dec_count(counts, c), rest)
            } else {
                seq!['-'] + masked_word(counts, rest)
            },
            None => seq!['-'] + masked_word(counts, rest),
        }
    }
}

/// Builds the masked form of `word_vec` under the revealed counts in
/// `cur_map`, appending it to `res`: letters are counted off left to
/// right against a scratch copy of the counts, so each letter shows
/// exactly as often as its revealed count allows.
pub fn concat_word(cur_map: &LetterCounts, word_vec: &Vec<char>, res: &mut Vec<char>)
    requires
        cur_map.wf(),
    ensures
        final(res)@ == old(res)@ + masked_word(cur_map@, word_vec@),
{
    let mut tmp = cur_map.clone_counts();
    let n = word_vec.len();
    proof {
        assert(word_vec@.subrange(0, n as int) =~= word_vec@);
    }
    for i in 0..n
        invariant
            n == word_vec@.len(),
            tmp.wf(),
            old(res)@ + masked_word(cur_map@, word_vec@) == res@ + masked_word(
                tmp@,
                word_vec@.subrange(i as int, n as int),
            ),
    {
        let ghost pre_tmp = tmp@;
        let ghost pre_res = res@;
        let ghost rest = word_vec@.subrange(i as int, n as int);
        let c = word_vec[i];
        proof {
            assert(rest[0] == word_vec@[i as int]);
            assert(rest.subrange(1, rest.len() as int) =~= word_vec@.subrange(i + 1, n as int));
        }
        let show = match tmp.get(c) {
            Some(k) => k > 0,
            None => false,
        };
        if show {
            res.push(c);
            proof {
                assert forall|j: int|
                    0 <= j < tmp@.len() && (#[trigger] tmp@[j]).0 == c implies tmp@[j].1
                    > i32::MIN by {
                    assert forall|k: int| 0 <= k < j implies (#[trigger] tmp@[k]).0 != c by {
                        assert(tmp@[k].0 != tmp@[j].0);
                    }
                    lemma_lookup_first(tmp@, c, j);
                }
            }
            tmp.dec_all(c);
            proof {
                assert(tmp.wf()) by {
                    assert(forall|j: int|
                        0 <= j < pre_tmp.len() ==> (#[trigger] tmp@[j]).0 == pre_tmp[j].0);
                }
                assert(res@ =~= pre_res + seq![c]);
                assert(masked_word(pre_tmp, rest) == seq![c] + masked_word(
                    dec_count(pre_tmp, c),
                    rest.subrange(1, rest.len() as int),
                ));
                assert(pre_res + masked_word(pre_tmp, rest) =~= res@ + masked_word(
                    tmp@,
                    word_vec@.subrange(i + 1, n as int),
                ));
            }
        } else {
            res.push('-');
            proof {
                assert(res@ =~= pre_res + seq!['-']);
                assert(masked_word(pre_tmp, rest) == seq!['-'] + masked_word(
                    pre_tmp,
                    rest.subrange(1, rest.len() as int),
                ));
                assert(pre_res + masked_word(pre_tmp, rest) =~= res@ + masked_word(
                    tmp@,
                    word_vec@.subrange(i + 1, n as int),
                ));
            }
        }
    }
    proof {
        assert(word_vec@.subrange(n as int, n as int).len() == 0);
        assert(res@ =~= old(res)@ + masked_word(cur_map@, word_vec@));
    }
}

} // verus!
