use vstd::prelude::*;

use crate::text::string_from_chars;

verus! {

/// The FNV-1a offset basis.
pub const FNV_OFFSET: u64 = 0xcbf29ce484222325u64;

/// The FNV-1a prime.
pub const FNV_PRIME: u64 = 0x100000001b3u64;

/// A word that no character maps to, separating the fields of a card.
pub const FIELD_SEPARATOR: u64 = 0x110000u64;

/// The 64-bit FNV-1a hash of a sequence of words.
pub open spec fn fnv(words: Seq<u64>) -> u64
    decreases words.len(),
{
    if words.len() == 0 {
        FNV_OFFSET
    } else {
        vstd::wrapping::u64_specs::wrapping_mul(fnv(words.drop_last()) ^ words.last(), FNV_PRIME)
    }
}

/// The words of a string: its characters' code points.
pub open spec fn char_words(s: Seq<char>) -> Seq<u64> {
    s.map_values(|c: char| c as u64)
}

/// The hash of a card, identifying it across edits of its deck: a card
/// whose content is unchanged keeps its hash.
#[derive(PartialEq, Eq, Structural, Clone, Copy, Hash, Debug)]
pub struct CardHash {
    pub value: u64,
}

/// The lowercase hexadecimal digit of `d`.
pub open spec fn hex_digit(d: nat) -> char {
    if d < 10 {
        ('0' as nat + d) as char
    } else {
        ('a' as nat + d - 10) as char
    }
}

/// The `n` lowest hexadecimal digits of `v`, most significant first.
pub open spec fn hex_of(v: nat, n: nat) -> Seq<char>
    decreases n,
{
    if n == 0 {
        seq![]
    } else {
        hex_of(v / 16, (n - 1) as nat).push(hex_digit(v % 16))
    }
}

fn hex_digit_char(d: u64) -> (c: char)
    requires
        d < 16,
    ensures
        c == hex_digit(d as nat),
{
    let digits: [char; 16] = [
        '0', '1', '2', '3', '4', '5', '6', '7', '8', '9', 'a', 'b', 'c', 'd', 'e', 'f',
    ];
    let c = digits[d as usize];
    assert(c == hex_digit(d as nat)) by {
        assert(digits@ =~= seq![
            '0', '1', '2', '3', '4', '5', '6', '7', '8', '9', 'a', 'b', 'c', 'd', 'e', 'f',
        ]);
    }
    c
}

impl CardHash {
    /// The hash as 16 lowercase hexadecimal digits.
    pub fn to_hex(&self) -> (r: String)
        ensures
            r@ == hex_of(self.value as nat, 16),
    {
        let mut digits: Vec<char> = Vec::new();
        let mut x: u64 = self.value;
        let mut k: usize = 0;
        while k < 16
            invariant
                k <= 16,
                hex_of(self.value as nat, 16) == hex_of(x as nat, (16 - k) as nat) + digits@,
            decreases 16 - k,
        {
            let d = hex_digit_char(x % 16);
            proof {
                assert(hex_of(x as nat, (16 - k) as nat) == hex_of((x / 16) as nat, (
                16 - k - 1) as nat).push(hex_digit((x % 16) as nat)));
                assert(hex_of(x as nat, (16 - k) as nat) + digits@ =~= hex_of(
                    (x / 16) as nat,
                    (16 - k - 1) as nat,
                ) + seq![d].add(digits@));
            }
            digits.insert(0, d);
            x = x / 16;
            k = k + 1;
        }
        assert(hex_of(x as nat, 0) + digits@ =~= digits@);
        string_from_chars(digits.as_slice())
    }
}

/// `16` to the power `n`.
pub open spec fn pow16(n: nat) -> nat
    decreases n,
{
    if n == 0 {
        1
    } else {
        16 * pow16((n - 1) as nat)
    }
}

/// Equal `n`-digit texts come from numbers equal modulo `16^n`.
proof fn lemma_hex_of_mod(v: nat, w: nat, n: nat)
    requires
        hex_of(v, n) == hex_of(w, n),
    ensures
        v % pow16(n) == w % pow16(n),
    decreases n,
{
    if n == 0 {
        assert(v % 1 == 0 && w % 1 == 0);
    } else {
        let pv = hex_of(v / 16, (n - 1) as nat);
        let pw = hex_of(w / 16, (n - 1) as nat);
        assert(hex_of(v, n) == pv.push(hex_digit(v % 16)));
        assert(hex_of(w, n) == pw.push(hex_digit(w % 16)));
        assert(pv =~= hex_of(v, n).drop_last());
        assert(pw =~= hex_of(w, n).drop_last());
        assert(hex_digit(v % 16) == hex_of(v, n).last());
        assert(hex_digit(w % 16) == hex_of(w, n).last());
        lemma_hex_of_mod(v / 16, w / 16, (n - 1) as nat);
        assert(v % 16 == w % 16) by {
            let a = v % 16;
            let b = w % 16;
            if a != b {
                if a < 10 && b < 10 {
                    assert(('0' as nat + a) != ('0' as nat + b));
                } else if a >= 10 && b >= 10 {
                    assert(('a' as nat + a - 10) != ('a' as nat + b - 10));
                } else if a < 10 {
                    assert(('0' as nat + a) < 58);
                    assert(('a' as nat + b - 10) >= 97);
                } else {
                    assert(('0' as nat + b) < 58);
                    assert(('a' as nat + a - 10) >= 97);
                }
            }
        }
        let m = pow16((n - 1) as nat);
        assert(m > 0) by {
            lemma_pow16_positive((n - 1) as nat);
        }
        vstd::arithmetic::div_mod::lemma_breakdown(v as int, 16, m as int);
        vstd::arithmetic::div_mod::lemma_breakdown(w as int, 16, m as int);
    }
}

proof fn lemma_pow16_positive(n: nat)
    ensures
        pow16(n) > 0,
    decreases n,
{
    if n > 0 {
        lemma_pow16_positive((n - 1) as nat);
    }
}

/// Different hashes have different hexadecimal texts, so the URLs built
/// from them are different too.
pub proof fn law_to_hex_injective(a: CardHash, b: CardHash)
    ensures
        hex_of(a.value as nat, 16) == hex_of(b.value as nat, 16) ==> a == b,
{
    if hex_of(a.value as nat, 16) == hex_of(b.value as nat, 16) {
        lemma_hex_of_mod(a.value as nat, b.value as nat, 16);
        assert(pow16(16) == 0x1_0000_0000_0000_0000) by {
            reveal_with_fuel(pow16, 17);
        }
        assert((a.value as nat) % pow16(16) == a.value as nat);
        assert((b.value as nat) % pow16(16) == b.value as nat);
    }
}

/// A review grade.
#[derive(PartialEq, Eq, Structural, Clone, Copy, Debug)]
pub enum Grade {
    Forgot,
    Hard,
    Good,
    Easy,
}

/// The content of a card, as values.
pub enum ContentView {
    Basic { question: Seq<char>, answer: Seq<char> },
    Cloze { text: Seq<char>, start: usize, end: usize },
}

/// The content of a card.
pub enum CardContent {
    /// A question and its answer.
    Basic { question: String, answer: String },
    /// A text with one deletion: the characters `start..=end` of `text`.
    Cloze { text: String, start: usize, end: usize },
}

impl View for CardContent {
    type V = ContentView;

    open spec fn view(&self) -> ContentView {
        match self {
            CardContent::Basic { question, answer } => ContentView::Basic {
                question: question@,
                answer: answer@,
            },
            CardContent::Cloze { text, start, end } => ContentView::Cloze {
                text: text@,
                start: *start,
                end: *end,
            },
        }
    }
}

impl Clone for CardContent {
    fn clone(&self) -> (r: Self)
        ensures
            r@ == self@,
    {
        match self {
            CardContent::Basic { question, answer } => CardContent::Basic {
                question: question.clone(),
                answer: answer.clone(),
            },
            CardContent::Cloze { text, start, end } => CardContent::Cloze {
                text: text.clone(),
                start: *start,
                end: *end,
            },
        }
    }
}

impl CardContent {
    /// A basic card's content.
    pub fn new_basic(question: &str, answer: &str) -> (r: CardContent)
        ensures
            r@ == (ContentView::Basic { question: question@, answer: answer@ }),
    {
        CardContent::Basic { question: question.to_owned(), answer: answer.to_owned() }
    }

    /// A cloze card's content.
    pub fn new_cloze(text: &str, start: usize, end: usize) -> (r: CardContent)
        ensures
            r@ == (ContentView::Cloze { text: text@, start, end }),
    {
        CardContent::Cloze { text: text.to_owned(), start, end }
    }
}

/// The words hashed to identify a card with the given content.
pub open spec fn content_words(c: ContentView) -> Seq<u64> {
    match c {
        ContentView::Basic { question, answer } => seq![1u64] + char_words(question) + seq![
            FIELD_SEPARATOR,
        ] + char_words(answer),
        ContentView::Cloze { text, start, end } => seq![2u64] + char_words(text) + seq![
            FIELD_SEPARATOR,
            start as u64,
            end as u64,
        ],
    }
}

/// The words hashed to identify a family of cloze cards sharing `text`.
pub open spec fn family_words(text: Seq<char>) -> Seq<u64> {
    seq![3u64] + char_words(text)
}

/// The hash of a card with the given content.
pub open spec fn content_hash(c: ContentView) -> CardHash {
    CardHash { value: fnv(content_words(c)) }
}

/// The family hash of a card with the given content: cloze cards with the
/// same text share it; basic cards have none.
pub open spec fn family_hash_of(c: ContentView) -> Option<CardHash> {
    match c {
        ContentView::Basic { .. } => None,
        ContentView::Cloze { text, .. } => Some(CardHash { value: fnv(family_words(text)) }),
    }
}

/// A card, as values.
pub struct CardView {
    pub deck_name: Seq<char>,
    pub file_path: Seq<char>,
    pub range: (usize, usize),
    pub content: ContentView,
}

/// A flashcard parsed from a deck file.
pub struct Card {
    deck_name: String,
    file_path: String,
    range: (usize, usize),
    content: CardContent,
}

impl View for Card {
    type V = CardView;

    closed spec fn view(&self) -> CardView {
        CardView {
            deck_name: self.deck_name@,
            file_path: self.file_path@,
            range: self.range,
            content: self.content@,
        }
    }
}

/// The values of a sequence of cards.
pub open spec fn card_views(cs: Seq<Card>) -> Seq<CardView> {
    cs.map_values(|c: Card| c@)
}

impl Clone for Card {
    fn clone(&self) -> (r: Self)
        ensures
            r@ == self@,
    {
        Card {
            deck_name: self.deck_name.clone(),
            file_path: self.file_path.clone(),
            range: self.range,
            content: self.content.clone(),
        }
    }
}

proof fn lemma_fnv_push(p: Seq<u64>, w: u64)
    ensures
        fnv(p.push(w)) == vstd::wrapping::u64_specs::wrapping_mul(fnv(p) ^ w, FNV_PRIME),
{
    assert(p.push(w).drop_last() =~= p);
}

/// Feed the word `w` to the FNV-1a state of `prefix`.
fn fnv_feed(h: u64, w: u64, Ghost(prefix): Ghost<Seq<u64>>) -> (r: u64)
    requires
        h == fnv(prefix),
    ensures
        r == fnv(prefix.push(w)),
{
    proof {
        lemma_fnv_push(prefix, w);
    }
    (h ^ w).wrapping_mul(FNV_PRIME)
}

/// Feed the characters of `s` to the FNV-1a state of `prefix`.
fn fnv_feed_chars(h: u64, s: &[char], Ghost(prefix): Ghost<Seq<u64>>) -> (r: u64)
    requires
        h == fnv(prefix),
    ensures
        r == fnv(prefix + char_words(s@)),
{
    let mut h = h;
    let mut i: usize = 0;
    while i < s.len()
        invariant
            i <= s@.len(),
            h == fnv(prefix + char_words(s@.take(i as int))),
        decreases s.len() - i,
    {
        let ghost before = prefix + char_words(s@.take(i as int));
        h = fnv_feed(h, s[i] as u64, Ghost(before));
        i = i + 1;
        proof {
            let after = prefix + char_words(s@.take(i as int));
            assert(after =~= before.push(s@[i - 1] as u64));
        }
    }
    assert(s@.take(s@.len() as int) =~= s@);
    h
}

fn basic_hash(question: &String, answer: &String) -> (r: u64)
    ensures
        r == fnv(content_words(ContentView::Basic { question: question@, answer: answer@ })),
{
    let q = crate::text::chars_of(question.as_str());
    let a = crate::text::chars_of(answer.as_str());
    let ghost e = Seq::<u64>::empty();
    let h0 = fnv_feed(FNV_OFFSET, 1, Ghost(e));
    let ghost p0 = e.push(1u64);
    let h1 = fnv_feed_chars(h0, q.as_slice(), Ghost(p0));
    let ghost p1 = p0 + char_words(q@);
    let h2 = fnv_feed(h1, FIELD_SEPARATOR, Ghost(p1));
    let ghost p2 = p1.push(FIELD_SEPARATOR);
    let h3 = fnv_feed_chars(h2, a.as_slice(), Ghost(p2));
    assert(p2 + char_words(a@) =~= content_words(
        ContentView::Basic { question: question@, answer: answer@ },
    ));
    h3
}

fn cloze_hash(text: &String, start: usize, end: usize) -> (r: u64)
    ensures
        r == fnv(content_words(ContentView::Cloze { text: text@, start, end })),
{
    let t = crate::text::chars_of(text.as_str());
    let ghost e = Seq::<u64>::empty();
    let h0 = fnv_feed(FNV_OFFSET, 2, Ghost(e));
    let ghost p0 = e.push(2u64);
    let h1 = fnv_feed_chars(h0, t.as_slice(), Ghost(p0));
    let ghost p1 = p0 + char_words(t@);
    let h2 = fnv_feed(h1, FIELD_SEPARATOR, Ghost(p1));
    let ghost p2 = p1.push(FIELD_SEPARATOR);
    let h3 = fnv_feed(h2, start as u64, Ghost(p2));
    let ghost p3 = p2.push(start as u64);
    let h4 = fnv_feed(h3, end as u64, Ghost(p3));
    assert(p3.push(end as u64) =~= content_words(ContentView::Cloze { text: text@, start, end }));
    h4
}

fn family_value(text: &String) -> (r: u64)
    ensures
        r == fnv(family_words(text@)),
{
    let t = crate::text::chars_of(text.as_str());
    let ghost e = Seq::<u64>::empty();
    let h0 = fnv_feed(FNV_OFFSET, 3, Ghost(e));
    let ghost p0 = e.push(3u64);
    let h1 = fnv_feed_chars(h0, t.as_slice(), Ghost(p0));
    assert(p0 + char_words(t@) =~= family_words(text@));
    h1
}

impl Card {
    /// Build a card.
    pub fn new(deck_name: String, file_path: String, range: (usize, usize), content: CardContent) -> (r: Card)
        ensures
            r@ == (CardView { deck_name: deck_name@, file_path: file_path@, range, content: content@ }),
    {
        Card { deck_name, file_path, range, content }
    }

    /// The name of the deck the card belongs to.
    pub fn deck_name(&self) -> (r: &String)
        ensures
            r@ == self@.deck_name,
    {
        &self.deck_name
    }

    /// The path of the file the card was parsed from.
    pub fn file_path(&self) -> (r: &String)
        ensures
            r@ == self@.file_path,
    {
        &self.file_path
    }

    /// The lines of the file the card was parsed from.
    pub fn range(&self) -> (r: (usize, usize))
        ensures
            r == self@.range,
    {
        self.range
    }

    /// The card's content.
    pub fn content(&self) -> (r: &CardContent)
        ensures
            r@ == self@.content,
    {
        &self.content
    }

    /// The card's hash.
    pub fn hash(&self) -> (r: CardHash)
        ensures
            r == content_hash(self@.content),
    {
        match &self.content {
            CardContent::Basic { question, answer } => CardHash {
                value: basic_hash(question, answer),
            },
            CardContent::Cloze { text, start, end } => CardHash {
                value: cloze_hash(text, *start, *end),
            },
        }
    }

    /// The hash shared by the cloze cards of one text; `None` for basic cards.
    pub fn family_hash(&self) -> (r: Option<CardHash>)
        ensures
            r == family_hash_of(self@.content),
    {
        match &self.content {
            CardContent::Basic { .. } => None,
            CardContent::Cloze { text, .. } => Some(CardHash { value: family_value(text) }),
        }
    }
}

} // verus!
