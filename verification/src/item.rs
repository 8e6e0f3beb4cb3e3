//! Vocabulary items and their identity.
//!
//! An item's identity is a content hash of its `word` field alone: two items
//! with the same word text are the same learning unit even when the other
//! fields differ, and the identity is stable across process runs and reloads.

use vstd::prelude::*;
use vstd::string::StrSliceExecFns;

verus! {

/// One vocabulary entry: a word together with its translation and metadata.
#[derive(Debug)]
pub struct VocaItem {
    pub word: String,
    pub transcription: String,
    pub translation: String,
    pub example: String,
    pub comment: String,
    pub tags: Vec<String>,
}

/// The mathematical content of a `VocaItem`: each text field as a sequence
/// of characters.
pub struct ItemView {
    pub word: Seq<char>,
    pub transcription: Seq<char>,
    pub translation: Seq<char>,
    pub example: Seq<char>,
    pub comment: Seq<char>,
    pub tags: Seq<Seq<char>>,
}

impl View for VocaItem {
    type V = ItemView;

    open spec fn view(&self) -> ItemView {
        ItemView {
            word: self.word@,
            transcription: self.transcription@,
            translation: self.translation@,
            example: self.example@,
            comment: self.comment@,
            tags: self.tags.deep_view(),
        }
    }
}

impl DeepView for VocaItem {
    type V = ItemView;

    open spec fn deep_view(&self) -> ItemView {
        self.view()
    }
}

/// The 128-bit identity that the md5 digest assigns to a word: the 16 digest
/// bytes read as one big-endian integer. A pure function of the word alone.
pub uninterp spec fn word_key(word: Seq<char>) -> u128;

/// Relies on md5::compute: the digest is a pure function of the input bytes,
/// 16 bytes long; they are read here as one big-endian 128-bit integer.
#[verifier::external_body]
fn compute_word_key(word: &str) -> (r: u128)
    ensures
        r == word_key(word@),
{
    u128::from_be_bytes(md5::compute(word.as_bytes()).0)
}

/// Relies on String::push: appends exactly one character.
#[verifier::external_body]
pub(crate) fn push_char(s: &mut String, c: char)
    ensures
        final(s)@ == old(s)@.push(c),
{
    s.push(c);
}

/// The lower-case hexadecimal digit for a value below 16.
pub open spec fn hex_char(d: int) -> char {
    if d == 0 {
        '0'
    } else if d == 1 {
        '1'
    } else if d == 2 {
        '2'
    } else if d == 3 {
        '3'
    } else if d == 4 {
        '4'
    } else if d == 5 {
        '5'
    } else if d == 6 {
        '6'
    } else if d == 7 {
        '7'
    } else if d == 8 {
        '8'
    } else if d == 9 {
        '9'
    } else if d == 10 {
        'a'
    } else if d == 11 {
        'b'
    } else if d == 12 {
        'c'
    } else if d == 13 {
        'd'
    } else if d == 14 {
        'e'
    } else {
        'f'
    }
}

/// The last `n` base-16 digits of `k`, most significant first.
pub open spec fn hex_digits(k: nat, n: nat) -> Seq<char>
    decreases n,
{
    if n == 0 {
        Seq::empty()
    } else {
        hex_digits(k / 16, (n - 1) as nat).push(hex_char((k % 16) as int))
    }
}

/// The 32-character lower-case hexadecimal form of a 128-bit identity,
/// zero-padded: exactly how the md5 digest prints.
pub open spec fn hex_key(k: u128) -> Seq<char> {
    hex_digits(k as nat, 32)
}

proof fn lemma_hex_digits_len(k: nat, n: nat)
    ensures
        hex_digits(k, n).len() == n,
    decreases n,
{
    if n > 0 {
        lemma_hex_digits_len(k / 16, (n - 1) as nat);
    }
}

proof fn lemma_hex_digits_index(k: nat, n: nat, j: int)
    requires
        0 <= j < n,
    ensures
        hex_digits(k, n)[j] == hex_char(
            (k as int / vstd::arithmetic::power::pow(16, (n - 1 - j) as nat)) % 16,
        ),
    decreases n,
{
    lemma_hex_digits_len(k / 16, (n - 1) as nat);
    if j == n - 1 {
        assert(vstd::arithmetic::power::pow(16, 0) == 1) by {
            vstd::arithmetic::power::lemma_pow0(16);
        }
    } else {
        lemma_hex_digits_index(k / 16, (n - 1) as nat, j);
        let m = (n - 2 - j) as nat;
        assert((k as int / 16) / vstd::arithmetic::power::pow(16, m) == k as int / (16 * vstd::arithmetic::power::pow(16, m))) by {
            vstd::arithmetic::power::lemma_pow_positive(16, m);
            vstd::arithmetic::div_mod::lemma_div_denominator(k as int, 16, vstd::arithmetic::power::pow(16, m) as int);
        }
        assert(16 * vstd::arithmetic::power::pow(16, m) == vstd::arithmetic::power::pow(16, (m + 1) as nat)) by {
            vstd::arithmetic::power::lemma_pow1(16);
            vstd::arithmetic::power::lemma_pow_adds(16, 1, m);
        }
    }
}

/// The value of a lower-case hexadecimal digit, or -1 for any other
/// character.
pub open spec fn hex_char_val(c: char) -> int {
    if c == '0' {
        0
    } else if c == '1' {
        1
    } else if c == '2' {
        2
    } else if c == '3' {
        3
    } else if c == '4' {
        4
    } else if c == '5' {
        5
    } else if c == '6' {
        6
    } else if c == '7' {
        7
    } else if c == '8' {
        8
    } else if c == '9' {
        9
    } else if c == 'a' {
        10
    } else if c == 'b' {
        11
    } else if c == 'c' {
        12
    } else if c == 'd' {
        13
    } else if c == 'e' {
        14
    } else if c == 'f' {
        15
    } else {
        -1
    }
}

/// The number a sequence of hexadecimal digits denotes, most significant
/// digit first.
pub open spec fn hex_str_val(s: Seq<char>) -> int
    decreases s.len(),
{
    if s.len() == 0 {
        0
    } else {
        hex_str_val(s.drop_last()) * 16 + hex_char_val(s.last())
    }
}

/// Whether a string is the hexadecimal form of an item identity: exactly 32
/// lower-case hexadecimal digits.
pub open spec fn is_hex_key(s: Seq<char>) -> bool {
    s.len() == 32 && forall|i: int| 0 <= i < 32 ==> hex_char_val(#[trigger] s[i]) >= 0
}

proof fn lemma_pow16_32()
    ensures
        vstd::arithmetic::power::pow(16, 32) == 0xffff_ffff_ffff_ffff_ffff_ffff_ffff_ffffu128
            + 1,
{
    vstd::arithmetic::power::lemma_pow1(16);
    vstd::arithmetic::power::lemma_pow_adds(16, 1, 1);
    assert(vstd::arithmetic::power::pow(16, 2) == 256);
    vstd::arithmetic::power::lemma_pow_adds(16, 2, 2);
    assert(vstd::arithmetic::power::pow(16, 4) == 0x1_0000);
    vstd::arithmetic::power::lemma_pow_adds(16, 4, 4);
    assert(vstd::arithmetic::power::pow(16, 8) == 0x1_0000_0000);
    vstd::arithmetic::power::lemma_pow_adds(16, 8, 8);
    assert(vstd::arithmetic::power::pow(16, 16) == 0x1_0000_0000_0000_0000);
    vstd::arithmetic::power::lemma_pow_adds(16, 16, 16);
    assert(vstd::arithmetic::power::pow(16, 32) == 0xffff_ffff_ffff_ffff_ffff_ffff_ffff_ffffu128
        + 1);
}

proof fn lemma_hex_char_val_inverse(d: int)
    requires
        0 <= d < 16,
    ensures
        hex_char_val(hex_char(d)) == d,
{
}

proof fn lemma_hex_digits_parse(k: nat, n: nat)
    ensures
        forall|j: int| 0 <= j < n ==> hex_char_val(#[trigger] hex_digits(k, n)[j]) >= 0,
        hex_str_val(hex_digits(k, n)) == k as int % vstd::arithmetic::power::pow(16, n),
    decreases n,
{
    lemma_hex_digits_len(k, n);
    if n == 0 {
        vstd::arithmetic::power::lemma_pow0(16);
        vstd::arithmetic::div_mod::lemma_small_mod(0, 1);
        assert(k as int % 1 == 0) by {
            vstd::arithmetic::div_mod::lemma_mod_self_0(1);
            vstd::arithmetic::div_mod::lemma_mod_multiples_basic(k as int, 1);
        }
    } else {
        lemma_hex_digits_parse(k / 16, (n - 1) as nat);
        lemma_hex_digits_len(k / 16, (n - 1) as nat);
        let s = hex_digits(k, n);
        let s0 = hex_digits(k / 16, (n - 1) as nat);
        assert(s == s0.push(hex_char((k % 16) as int)));
        assert(s.drop_last() =~= s0);
        lemma_hex_char_val_inverse((k % 16) as int);
        let p = vstd::arithmetic::power::pow(16, (n - 1) as nat);
        vstd::arithmetic::power::lemma_pow_positive(16, (n - 1) as nat);
        vstd::arithmetic::div_mod::lemma_breakdown(k as int, 16, p);
        vstd::arithmetic::power::lemma_pow1(16);
        vstd::arithmetic::power::lemma_pow_adds(16, 1, (n - 1) as nat);
        assert(hex_str_val(s) == ((k as int / 16) % p) * 16 + (k as int % 16));
        assert(16 * ((k as int / 16) % p) == ((k as int / 16) % p) * 16) by (nonlinear_arith);
    }
}

/// Law: the hexadecimal string form of an identity denotes that identity:
/// rendering a 128-bit key as 32 hexadecimal digits and reading the digits
/// back yields the key.
pub proof fn law_hex_key_round_trip(k: u128)
    ensures
        is_hex_key(hex_key(k)),
        hex_str_val(hex_key(k)) == k,
{
    lemma_hex_digits_parse(k as nat, 32);
    lemma_hex_digits_len(k as nat, 32);
    lemma_pow16_32();
    assert(k as int % (0xffff_ffff_ffff_ffff_ffff_ffff_ffff_ffffu128 + 1) == k) by {
        vstd::arithmetic::div_mod::lemma_small_mod(
            k as nat,
            (0xffff_ffff_ffff_ffff_ffff_ffff_ffff_ffffu128 + 1) as nat,
        );
    }
}

/// The value of a lower-case hexadecimal digit.
fn hex_char_val_exec(c: char) -> (r: Option<u8>)
    ensures
        match r {
            Some(d) => hex_char_val(c) == d && d < 16,
            None => hex_char_val(c) < 0,
        },
{
    match c {
        '0' => Some(0),
        '1' => Some(1),
        '2' => Some(2),
        '3' => Some(3),
        '4' => Some(4),
        '5' => Some(5),
        '6' => Some(6),
        '7' => Some(7),
        '8' => Some(8),
        '9' => Some(9),
        'a' => Some(10),
        'b' => Some(11),
        'c' => Some(12),
        'd' => Some(13),
        'e' => Some(14),
        'f' => Some(15),
        _ => None,
    }
}

/// Read an identity back from its 32-digit hexadecimal string form; any
/// other string is rejected.
pub fn parse_hex_key(s: &str) -> (r: Option<u128>)
    ensures
        match r {
            Some(k) => is_hex_key(s@) && k == hex_str_val(s@),
            None => !is_hex_key(s@),
        },
{
    let n = s.unicode_len();
    if n != 32 {
        return None;
    }
    let mut acc: u128 = 0;
    let mut i: usize = 0;
    proof {
        vstd::arithmetic::power::lemma_pow0(16);
        assert(s@.subrange(0, 0) =~= Seq::<char>::empty());
    }
    while i < 32
        invariant
            i <= 32,
            s@.len() == 32,
            forall|j: int| 0 <= j < i ==> hex_char_val(#[trigger] s@[j]) >= 0,
            acc == hex_str_val(s@.subrange(0, i as int)),
            acc < vstd::arithmetic::power::pow(16, i as nat),
        decreases 32 - i,
    {
        let c = s.get_char(i);
        let d = match hex_char_val_exec(c) {
            Some(d) => d,
            None => {
                return None;
            },
        };
        proof {
            let p = vstd::arithmetic::power::pow(16, i as nat);
            vstd::arithmetic::power::lemma_pow_positive(16, i as nat);
            vstd::arithmetic::power::lemma_pow1(16);
            vstd::arithmetic::power::lemma_pow_adds(16, i as nat, 1);
            lemma_pow16_32();
            vstd::arithmetic::power::lemma_pow_increases(16, (i + 1) as nat, 32);
            assert((acc as int) * 16 + 16 <= p * 16) by (nonlinear_arith)
                requires
                    acc < p,
            ;
            assert(s@.subrange(0, i as int + 1).drop_last() =~= s@.subrange(0, i as int));
            assert(s@.subrange(0, i as int + 1).last() == s@[i as int]);
        }
        acc = acc * 16 + (d as u128);
        i = i + 1;
    }
    proof {
        assert(s@.subrange(0, 32) =~= s@);
    }
    Some(acc)
}

/// Whether an item's tag set passes a tag filter: an absent or empty filter
/// passes every item; otherwise the item passes exactly when it carries at
/// least one tag that the filter names.
pub open spec fn spec_passes(tags: Seq<Seq<char>>, filter: Option<Seq<Seq<char>>>) -> bool {
    match filter {
        None => true,
        Some(f) => f.len() == 0 || exists|i: int, j: int|
            0 <= i < tags.len() && 0 <= j < f.len() && tags[i] == f[j],
    }
}

/// The mathematical content of an optional tag filter.
pub open spec fn filter_view(filtertags: Option<&Vec<&str>>) -> Option<Seq<Seq<char>>> {
    match filtertags {
        None => None,
        Some(v) => Some(v.deep_view()),
    }
}

/// Whether two string slices hold the same characters.
pub(crate) fn str_equal(a: &str, b: &str) -> (r: bool)
    ensures
        r == (a@ == b@),
{
    let sa: String = a.to_owned();
    let sb: String = b.to_owned();
    sa == sb
}

impl VocaItem {
    /// The item's identity: a content hash of `word` alone.
    pub fn id(&self) -> (r: u128)
        ensures
            r == word_key(self@.word),
    {
        compute_word_key(self.word.as_str())
    }

    /// The identity in its 32-character lower-case hexadecimal string form.
    pub fn id_as_string(&self) -> (r: String)
        ensures
            r@ == hex_key(word_key(self@.word)),
    {
        let k = self.id();
        let ghost kn = k as nat;
        let mut rev: Vec<char> = Vec::new();
        let mut cur: u128 = k;
        let mut i: usize = 0;
        proof {
            vstd::arithmetic::power::lemma_pow0(16);
        }
        while i < 32
            invariant
                i <= 32,
                rev@.len() == i,
                cur as int == kn as int / vstd::arithmetic::power::pow(16, i as nat),
                forall|j: int| 0 <= j < i ==> rev@[j] == hex_char(
                    (kn as int / vstd::arithmetic::power::pow(16, j as nat)) % 16,
                ),
            decreases 32 - i,
        {
            let d: u128 = cur % 16;
            rev.push(hex_char_exec(d));
            proof {
                let p = vstd::arithmetic::power::pow(16, i as nat);
                vstd::arithmetic::power::lemma_pow_positive(16, i as nat);
                vstd::arithmetic::div_mod::lemma_div_denominator(kn as int, p as int, 16);
                vstd::arithmetic::power::lemma_pow1(16);
                vstd::arithmetic::power::lemma_pow_adds(16, i as nat, 1);
            }
            cur = cur / 16;
            i = i + 1;
        }
        let mut s = String::new();
        let mut m: usize = 0;
        proof {
            lemma_hex_digits_len(kn, 32);
        }
        while m < 32
            invariant
                m <= 32,
                rev@.len() == 32,
                forall|j: int| 0 <= j < 32 ==> rev@[j] == hex_char(
                    (kn as int / vstd::arithmetic::power::pow(16, j as nat)) % 16,
                ),
                hex_digits(kn, 32).len() == 32,
                s@.len() == m,
                forall|p: int| 0 <= p < m ==> s@[p] == hex_digits(kn, 32)[p],
            decreases 32 - m,
        {
            push_char(&mut s, rev[31 - m]);
            proof {
                lemma_hex_digits_index(kn, 32, m as int);
            }
            m = m + 1;
        }
        proof {
            assert(s@ =~= hex_key(k));
        }
        s
    }

    /// Whether this item passes the given tag filter.
    pub fn filter(&self, filtertags: Option<&Vec<&str>>) -> (r: bool)
        ensures
            r == spec_passes(self@.tags, filter_view(filtertags)),
    {
        match filtertags {
            None => true,
            Some(ftags) => {
                if ftags.len() == 0 {
                    return true;
                }
                let mut i: usize = 0;
                while i < self.tags.len()
                    invariant
                        i <= self.tags.len(),
                        ftags.len() > 0,
                        filter_view(filtertags) == Some(ftags.deep_view()),
                        forall|a: int, b: int|
                            0 <= a < i && 0 <= b < ftags@.len()
                                ==> self@.tags[a] != ftags.deep_view()[b],
                    decreases self.tags.len() - i,
                {
                    let mut j: usize = 0;
                    while j < ftags.len()
                        invariant
                            i < self.tags.len(),
                            j <= ftags.len(),
                            filter_view(filtertags) == Some(ftags.deep_view()),
                            forall|b: int| 0 <= b < j ==> self@.tags[i as int] != ftags.deep_view()[b],
                        decreases ftags.len() - j,
                    {
                        if str_equal(self.tags[i].as_str(), ftags[j]) {
                            assert(self@.tags[i as int] == ftags.deep_view()[j as int]);
                            return true;
                        }
                        j = j + 1;
                    }
                    i = i + 1;
                }
                false
            },
        }
    }
}

/// The lower-case hexadecimal digit for a value below 16.
fn hex_char_exec(d: u128) -> (c: char)
    requires
        d < 16,
    ensures
        c == hex_char(d as int),
{
    if d == 0 {
        '0'
    } else if d == 1 {
        '1'
    } else if d == 2 {
        '2'
    } else if d == 3 {
        '3'
    } else if d == 4 {
        '4'
    } else if d == 5 {
        '5'
    } else if d == 6 {
        '6'
    } else if d == 7 {
        '7'
    } else if d == 8 {
        '8'
    } else if d == 9 {
        '9'
    } else if d == 10 {
        'a'
    } else if d == 11 {
        'b'
    } else if d == 12 {
        'c'
    } else if d == 13 {
        'd'
    } else if d == 14 {
        'e'
    } else {
        'f'
    }
}

impl Clone for VocaItem {
    /// A clone carries exactly the same content.
    fn clone(&self) -> (r: Self)
        ensures
            r@ == self@,
    {
        let mut tags: Vec<String> = Vec::new();
        let mut i: usize = 0;
        while i < self.tags.len()
            invariant
                i <= self.tags.len(),
                tags@.len() == i,
                forall|j: int| 0 <= j < i ==> tags@[j]@ == self.tags@[j]@,
            decreases self.tags.len() - i,
        {
            tags.push(self.tags[i].clone());
            i = i + 1;
        }
        let r = VocaItem {
            word: self.word.clone(),
            transcription: self.transcription.clone(),
            translation: self.translation.clone(),
            example: self.example.clone(),
            comment: self.comment.clone(),
            tags,
        };
        proof {
            assert(r@.tags =~= self@.tags);
        }
        r
    }
}

} // verus!
