//! Letter frequencies of words and grouping words that are anagrams of each
//! other. Upper and lower case count as the same letter; characters below
//! `a` once lowered are not letters and are not counted.
use crate::text::string_of;
use vstd::prelude::*;

verus! {

/// The code of `c` in ASCII lower case: `A` to `Z` move to `a` to `z`,
/// everything else stays.
pub open spec fn lower_code(c: char) -> u32 {
    if 65 <= c as u32 <= 90 {
        (c as u32 + 32) as u32
    } else {
        c as u32
    }
}

/// `c` is counted or ignored, never out of the alphabet: lowered, it is not
/// past `z`.
pub open spec fn countable(c: char) -> bool {
    lower_code(c) <= 122
}

/// How many characters of `s` are letter `k` (`a` is 0) in either case.
pub open spec fn letter_count(s: Seq<char>, k: int) -> nat
    decreases s.len(),
{
    if s.len() == 0 {
        0
    } else {
        letter_count(s.drop_last(), k) + if lower_code(s.last()) == 97 + k {
            1nat
        } else {
            0nat
        }
    }
}

/// The 26 letter counts of `s`.
pub open spec fn frequency_of(s: Seq<char>) -> Seq<nat> {
    Seq::new(26, |k: int| letter_count(s, k))
}

/// A Unicode scalar value: what `char` can hold.
pub open spec fn is_scalar(n: u32) -> bool {
    n < 0xD800 || (0xE000 <= n && n <= 0x10FFFF)
}

/// Relies on `char::to_ascii_lowercase`: ASCII `A` to `Z` become `a` to
/// `z`; every other character is returned unchanged.
#[verifier::external_body]
fn lowercase_ascii(c: char) -> (r: char)
    ensures
        r as u32 == lower_code(c),
{
    c.to_ascii_lowercase()
}

/// Relies on `char::from_u32`: the character of code `n` when `n` is a
/// Unicode scalar value, else `None`.
#[verifier::external_body]
fn char_of(n: u32) -> (r: Option<char>)
    ensures
        r is Some <==> is_scalar(n),
        r matches Some(c) ==> c as u32 == n,
{
    char::from_u32(n)
}

/// How often each of the 26 letters occurs, `a` first.
#[derive(Debug, PartialEq, Eq)]
pub struct LetterFrequency(pub [u32; 26]);

impl Default for LetterFrequency {
    fn default() -> (r: Self)
        ensures
            forall|k: int| 0 <= k < 26 ==> r.0[k] == 0,
    {
        LetterFrequency([0u32; 26])
    }
}

/// Counts the letters of `word`.
pub fn get_letter_frequency(word: &str) -> (r: LetterFrequency)
    requires
        word@.len() <= u32::MAX,
        forall|i: int| 0 <= i < word@.len() ==> countable(#[trigger] word@[i]),
    ensures
        forall|k: int| 0 <= k < 26 ==> r.0[k] == letter_count(word@, k),
{
    let mut frequency = LetterFrequency::default();
    let n = vstd::string::StrSliceExecFns::unicode_len(word);
    let mut i: usize = 0;
    while i < n
        invariant
            n == word@.len(),
            n <= u32::MAX,
            i <= n,
            forall|j: int| 0 <= j < word@.len() ==> countable(#[trigger] word@[j]),
            forall|k: int|
                0 <= k < 26 ==> frequency.0[k] == letter_count(word@.subrange(0, i as int), k),
            forall|k: int| 0 <= k < 26 ==> letter_count(word@.subrange(0, i as int), k) <= i,
        decreases n - i,
    {
        let c = vstd::string::StrSliceExecFns::get_char(word, i);
        let lower = lowercase_ascii(c);
        let ghost pre = word@.subrange(0, i as int);
        assert(word@.subrange(0, i + 1).drop_last() == pre);
        assert(countable(word@[i as int]));
        assert forall|k: int| 0 <= k < 26 implies #[trigger] letter_count(word@.subrange(0, i + 1), k)
            <= i + 1 by {
            assert(letter_count(pre, k) <= i);
        }
        if (lower as u32) >= 97 {
            let position = (lower as u32 - 97) as usize;
            frequency.0[position] = frequency.0[position] + 1;
        }
        i = i + 1;
    }
    assert(word@.subrange(0, n as int) == word@);
    frequency
}

/// `key` spells `counts`: each count as the character of that code, after
/// a `#`.
pub open spec fn spells(key: Seq<char>, counts: Seq<u32>) -> bool {
    &&& key.len() == 2 * counts.len()
    &&& forall|k: int| 0 <= k < counts.len() ==> #[trigger] spells_at(key, counts, k)
}

/// Count `k` is spelled at its place in `key`.
pub open spec fn spells_at(key: Seq<char>, counts: Seq<u32>, k: int) -> bool {
    key[2 * k] == '#' && key[2 * k + 1] as u32 == counts[k]
}

impl LetterFrequency {
    /// The counts as a string key, `#` and the character of each count in
    /// turn.
    pub fn to_key(&self) -> (r: String)
        requires
            forall|k: int| 0 <= k < 26 ==> is_scalar(#[trigger] self.0[k]),
        ensures
            spells(r@, self.0@),
    {
        let mut key: Vec<char> = Vec::new();
        let mut k: usize = 0;
        while k < 26
            invariant
                k <= 26,
                forall|j: int| 0 <= j < 26 ==> is_scalar(#[trigger] self.0[j]),
                spells(key@, self.0@.subrange(0, k as int)),
            decreases 26 - k,
        {
            let ghost before = key@;
            key.push('#');
            let c = char_of(self.0[k]);
            key.push(c.unwrap());
            proof {
                let counts = self.0@.subrange(0, k + 1);
                assert forall|j: int| 0 <= j < counts.len() implies #[trigger] spells_at(key@, counts, j) by {
                    if j < k {
                        assert(spells_at(before, self.0@.subrange(0, k as int), j));
                        assert(key@[2 * j] == before[2 * j]);
                        assert(key@[2 * j + 1] == before[2 * j + 1]);
                        assert(self.0@.subrange(0, k as int)[j] == counts[j]);
                    }
                }
                assert(before.len() == 2 * k);
                assert(key@.len() == 2 * counts.len());
                assert(spells(key@, counts));
            }
            k = k + 1;
        }
        assert(self.0@.subrange(0, 26) == self.0@);
        string_of(key)
    }
}

/// `a` and `b` hold each letter equally often.
pub open spec fn same_letters(a: Seq<char>, b: Seq<char>) -> bool {
    frequency_of(a) == frequency_of(b)
}

/// `w` can be counted and keyed: only countable characters, and every
/// letter count a character code.
pub open spec fn keyable(w: Seq<char>) -> bool {
    &&& w.len() <= u32::MAX
    &&& forall|i: int| 0 <= i < w.len() ==> countable(#[trigger] w[i])
    &&& forall|k: int| 0 <= k < 26 ==> is_scalar(#[trigger] letter_count(w, k) as u32)
}

/// Two keys are equal exactly when the counts they spell are.
proof fn lemma_keys_match(k1: Seq<char>, c1: Seq<u32>, k2: Seq<char>, c2: Seq<u32>)
    requires
        spells(k1, c1),
        spells(k2, c2),
        c1.len() == c2.len(),
    ensures
        k1 == k2 <==> c1 == c2,
{
    if c1 == c2 {
        assert forall|i: int| 0 <= i < k1.len() implies k1[i] == k2[i] by {
            let k = i / 2;
            assert(0 <= k < c1.len());
            if i % 2 == 0 {
                assert(i == 2 * k);
                assert(spells_at(k1, c1, k) && spells_at(k2, c2, k));
            } else {
                assert(i == 2 * k + 1);
                assert(spells_at(k1, c1, k) && spells_at(k2, c2, k));
                let u = k1[2 * k + 1] as u32;
                vstd::utf8::char_u32_cast(k1[2 * k + 1], u);
                vstd::utf8::char_u32_cast(k2[2 * k + 1], u);
            }
        }
        assert(k1 =~= k2);
    }
    if k1 == k2 {
        assert forall|k: int| 0 <= k < c1.len() implies c1[k] == c2[k] by {
            assert(spells_at(k1, c1, k) && spells_at(k2, c2, k));
        }
        assert(c1 =~= c2);
    }
}

/// The letter counts of `w` as stored: one `u32` per letter.
pub open spec fn counts_of(w: Seq<char>) -> Seq<u32> {
    Seq::new(26, |k: int| letter_count(w, k) as u32)
}

/// No letter occurs more often than the word is long.
proof fn lemma_letter_count_bound(s: Seq<char>, k: int)
    ensures
        letter_count(s, k) <= s.len(),
    decreases s.len(),
{
    if s.len() > 0 {
        lemma_letter_count_bound(s.drop_last(), k);
    }
}

/// For countable words, equal stored counts mean equal letter counts.
proof fn lemma_counts_match(a: Seq<char>, b: Seq<char>)
    requires
        keyable(a),
        keyable(b),
    ensures
        counts_of(a) == counts_of(b) <==> same_letters(a, b),
{
    if counts_of(a) == counts_of(b) {
        assert forall|k: int| 0 <= k < 26 implies letter_count(a, k) == letter_count(b, k) by {
            lemma_letter_count_bound(a, k);
            lemma_letter_count_bound(b, k);
            assert(counts_of(a)[k] == counts_of(b)[k]);
        }
        assert(frequency_of(a) =~= frequency_of(b));
    }
    if same_letters(a, b) {
        assert forall|k: int| 0 <= k < 26 implies counts_of(a)[k] == counts_of(b)[k] by {
            assert(frequency_of(a)[k] == frequency_of(b)[k]);
        }
        assert(counts_of(a) =~= counts_of(b));
    }
}

/// The key of `word`.
fn key_of(word: &str) -> (r: String)
    requires
        keyable(word@),
    ensures
        spells(r@, counts_of(word@)),
{
    let f = get_letter_frequency(word);
    assert forall|k: int| 0 <= k < 26 implies is_scalar(#[trigger] f.0[k]) by {
        assert(is_scalar(letter_count(word@, k) as u32));
    }
    let r = f.to_key();
    assert(f.0@ =~= counts_of(word@));
    r
}

/// One of `groups` starts with a word of the letters of `w`.
pub open spec fn in_some_group<'a>(w: Seq<char>, groups: Seq<Vec<&'a str>>) -> bool {
    exists|g: int| 0 <= g < groups.len() && same_letters(w, groups[g]@[0]@)
}

/// Some group representative has the letters of `w`.
pub open spec fn has_group(w: Seq<char>, reps: Seq<Seq<char>>) -> bool {
    exists|g: int| 0 <= g < reps.len() && same_letters(w, reps[g])
}

/// Nothing of `s` passes `pred` when no element of it does.
proof fn lemma_filter_none<A>(s: Seq<A>, pred: spec_fn(A) -> bool)
    requires
        forall|i: int| 0 <= i < s.len() ==> !pred(#[trigger] s[i]),
    ensures
        s.filter(pred) == Seq::<A>::empty(),
{
    if s.filter(pred).len() > 0 {
        s.lemma_filter_pred(pred, 0);
        s.lemma_filter_contains_rev(pred, s.filter(pred)[0]);
    }
    assert(s.filter(pred) =~= Seq::<A>::empty());
}

/// Groups `words` by their letters: each group holds, in input order, every
/// word with the same letter counts as its first, and no two groups share
/// counts. Groups come in the order their first word does.
pub fn group_anagrams<'a>(words: &[&'a str]) -> (r: Vec<Vec<&'a str>>)
    requires
        forall|i: int| 0 <= i < words@.len() ==> keyable(#[trigger] words@[i]@),
    ensures
        forall|g: int|
            0 <= g < r@.len() ==> (#[trigger] r@[g])@.len() > 0 && r@[g]@ == words@.filter(
                |w: &'a str| same_letters(w@, r@[g]@[0]@),
            ),
        forall|g: int, h: int|
            0 <= g < h < r@.len() ==> !same_letters((#[trigger] r@[g])@[0]@, (#[trigger] r@[h])@[0]@),
        forall|i: int| 0 <= i < words@.len() ==> #[trigger] in_some_group(words@[i]@, r@),
{
    let mut keys: Vec<String> = Vec::new();
    let mut groups: Vec<Vec<&'a str>> = Vec::new();
    let ghost mut reps: Seq<Seq<char>> = Seq::empty();
    let mut i: usize = 0;
    while i < words.len()
        invariant
            i <= words@.len(),
            forall|j: int| 0 <= j < words@.len() ==> keyable(#[trigger] words@[j]@),
            keys@.len() == groups@.len(),
            reps.len() == groups@.len(),
            forall|g: int| 0 <= g < reps.len() ==> keyable(#[trigger] reps[g]),
            forall|g: int| 0 <= g < keys@.len() ==> spells((#[trigger] keys@[g])@, counts_of(reps[g])),
            forall|g: int|
                0 <= g < groups@.len() ==> (#[trigger] groups@[g])@.len() > 0 && groups@[g]@
                    == words@.subrange(0, i as int).filter(|w: &'a str| same_letters(w@, reps[g])),
            forall|g: int, h: int|
                0 <= g < h < reps.len() ==> !same_letters(#[trigger] reps[g], #[trigger] reps[h]),
            forall|j: int| 0 <= j < i ==> #[trigger] has_group(words@[j]@, reps),
        decreases words.len() - i,
    {
        let word = words[i];
        let key = key_of(word);
        let ghost pre = words@.subrange(0, i as int);
        assert(words@.subrange(0, i + 1) == pre.push(word));
        let mut found: Option<usize> = None;
        let mut j: usize = 0;
        while j < keys.len()
            invariant
                j <= keys@.len(),
                keys@.len() == reps.len(),
                keyable(word@),
                forall|g: int| 0 <= g < reps.len() ==> keyable(#[trigger] reps[g]),
                forall|g: int| 0 <= g < keys@.len() ==> spells((#[trigger] keys@[g])@, counts_of(reps[g])),
                spells(key@, counts_of(word@)),
                found matches Some(g) ==> g < reps.len() && same_letters(word@, reps[g as int]),
                found is None ==> forall|g: int| 0 <= g < j ==> !same_letters(word@, #[trigger] reps[g]),
            ensures
                found matches Some(g) ==> g < reps.len() && same_letters(word@, reps[g as int]),
                found is None ==> forall|g: int| 0 <= g < reps.len() ==> !same_letters(word@, #[trigger] reps[g]),
            decreases keys.len() - j,
        {
            proof {
                lemma_keys_match(keys@[j as int]@, counts_of(reps[j as int]), key@, counts_of(word@));
                lemma_counts_match(word@, reps[j as int]);
            }
            if keys[j] == key {
                found = Some(j);
                break;
            }
            j = j + 1;
        }
        match found {
            Some(g) => {
                let ghost before = groups@;
                groups[g].push(word);
                proof {
                    assert forall|h: int| 0 <= h < groups@.len() implies (#[trigger] groups@[h])@.len() > 0
                        && groups@[h]@ == words@.subrange(0, i + 1).filter(
                        |w: &'a str| same_letters(w@, reps[h]),
                    ) by {
                        let pred = |w: &'a str| same_letters(w@, reps[h]);
                        pre.lemma_filter_push(word, pred);
                        if h != g {
                            assert(groups@[h] == before[h]);
                            if same_letters(word@, reps[h]) {
                                assert(same_letters(reps[g as int], reps[h]));
                                if g < h {
                                    assert(!same_letters(reps[g as int], reps[h]));
                                } else {
                                    assert(!same_letters(reps[h], reps[g as int]));
                                }
                            }
                        }
                    }
                    assert forall|k: int| 0 <= k < i + 1 implies #[trigger] has_group(words@[k]@, reps) by {
                        if k == i {
                            assert(same_letters(words@[k]@, reps[g as int]));
                        }
                    }
                }
            },
            None => {
                let ghost before = groups@;
                let ghost old_reps = reps;
                proof {
                    let pred = |w: &'a str| same_letters(w@, word@);
                    assert forall|k: int| 0 <= k < pre.len() implies !pred(#[trigger] pre[k]) by {
                        assert(pre[k] == words@[k]);
                        assert(has_group(words@[k]@, reps));
                        let g2 = choose|g2: int| 0 <= g2 < reps.len() && same_letters(words@[k]@, reps[g2]);
                        if same_letters(pre[k]@, word@) {
                            assert(same_letters(word@, reps[g2]));
                        }
                    }
                    lemma_filter_none(pre, pred);
                    pre.lemma_filter_push(word, pred);
                    reps = reps.push(word@);
                }
                let mut fresh: Vec<&'a str> = Vec::new();
                fresh.push(word);
                groups.push(fresh);
                keys.push(key);
                proof {
                    assert forall|h: int| 0 <= h < groups@.len() implies (#[trigger] groups@[h])@.len() > 0
                        && groups@[h]@ == words@.subrange(0, i + 1).filter(
                        |w: &'a str| same_letters(w@, reps[h]),
                    ) by {
                        let pred = |w: &'a str| same_letters(w@, reps[h]);
                        pre.lemma_filter_push(word, pred);
                        if h < before.len() {
                            assert(groups@[h] == before[h]);
                            assert(reps[h] == old_reps[h]);
                            assert(!same_letters(word@, old_reps[h]));
                        } else {
                            assert(groups@[h]@ =~= seq![word]);
                        }
                    }
                    assert forall|g2: int, h: int| 0 <= g2 < h < reps.len() implies !same_letters(
                        #[trigger] reps[g2],
                        #[trigger] reps[h],
                    ) by {
                        if h == reps.len() - 1 {
                            assert(!same_letters(word@, old_reps[g2]));
                        } else {
                            assert(reps[g2] == old_reps[g2] && reps[h] == old_reps[h]);
                        }
                    }
                    assert forall|k: int| 0 <= k < i + 1 implies #[trigger] has_group(words@[k]@, reps) by {
                        if k == i {
                            assert(same_letters(words@[k]@, reps[reps.len() - 1]));
                        } else {
                            assert(has_group(words@[k]@, old_reps));
                            let g2 = choose|g2: int| 0 <= g2 < old_reps.len() && same_letters(words@[k]@, old_reps[g2]);
                            assert(reps[g2] == old_reps[g2]);
                        }
                    }
                    assert forall|g2: int| 0 <= g2 < keys@.len() implies spells((#[trigger] keys@[g2])@, counts_of(reps[g2])) by {
                        if g2 < old_reps.len() {
                            assert(reps[g2] == old_reps[g2]);
                        }
                    }
                }
            },
        }
        i = i + 1;
    }
    proof {
        assert(words@.subrange(0, words@.len() as int) == words@);
        assert forall|g: int| 0 <= g < groups@.len() implies same_letters(
            (#[trigger] groups@[g])@[0]@,
            reps[g],
        ) && groups@[g]@ == words@.filter(|w: &'a str| same_letters(w@, groups@[g]@[0]@)) by {
            let p1 = |w: &'a str| same_letters(w@, reps[g]);
            let p2 = |w: &'a str| same_letters(w@, groups@[g]@[0]@);
            assert(groups@[g]@ == words@.filter(p1));
            words@.lemma_filter_pred(p1, 0);
            assert(p1 =~= p2);
        }
        assert forall|g: int, h: int| 0 <= g < h < groups@.len() implies !same_letters(
            (#[trigger] groups@[g])@[0]@,
            (#[trigger] groups@[h])@[0]@,
        ) by {
            assert(same_letters(groups@[g]@[0]@, reps[g]));
            assert(same_letters(groups@[h]@[0]@, reps[h]));
            assert(!same_letters(reps[g], reps[h]));
        }
        assert forall|k: int| 0 <= k < words@.len() implies #[trigger] in_some_group(words@[k]@, groups@) by {
            assert(has_group(words@[k]@, reps));
            let g = choose|g: int| 0 <= g < reps.len() && same_letters(words@[k]@, reps[g]);
            assert(same_letters(groups@[g]@[0]@, reps[g]));
            assert(same_letters(words@[k]@, groups@[g]@[0]@));
        }
    }
    groups
}

} // verus!
