//! The version model: dotted runs of numbers, with the legacy `1.x` and
//! `_`-separated writings folded into the same value.
//!
//! A version is the sequence of its numeric components. Versions are ordered
//! component by component; where one version is a proper prefix of another,
//! the shorter one is the smaller: `11` comes before `11.0`.

use crate::text::{
    all_digits, chars_of, decimal, digit_of, free_of, lemma_decimal_round_trip,
    lemma_split_join, lemma_split_nonempty, has_prefix, is_number, join, join_with, number_value, parse_number,
    render_number, replace_char, slice_of, split, split_on, string_of, swap_char, texts,
};
use std::cmp::Ordering;
use vstd::prelude::*;

verus! {

/// A parsed version.
#[derive(Clone, Debug, PartialEq, Eq)]
pub struct Version {
    /// The numeric components, most significant first.
    pub components: Vec<u64>,
    /// The version names a pre-release.
    pub is_prerelease: bool,
    /// The version names a development release.
    pub is_development: bool,
}

/// A piece of a version text is a component when it is a non-empty run of
/// decimal digits whose value fits 64 bits.
pub open spec fn is_component(piece: Seq<char>) -> bool {
    is_number(piece) && number_value(piece) <= u64::MAX
}

/// The legacy prefix `1.`, which `1.8` carries in front of its major number.
pub open spec fn legacy_prefix() -> Seq<char> {
    seq!['1', '.']
}

/// The text with a leading `1.` taken off and every `_` read as `.`.
pub open spec fn normalized(raw: Seq<char>) -> Seq<char> {
    let rest = if has_prefix(raw, legacy_prefix()) {
        raw.skip(2)
    } else {
        raw
    };
    swap_char(rest, '_', '.')
}

/// The numbers that the pieces write.
pub open spec fn values(pieces: Seq<Seq<char>>) -> Seq<nat> {
    pieces.map_values(|p: Seq<char>| number_value(p))
}

/// The components of the version that `raw` writes, or `None` where a piece
/// between two dots is not a component.
pub open spec fn parsed(raw: Seq<char>) -> Option<Seq<nat>> {
    let pieces = split(normalized(raw), '.');
    if forall|i: int| 0 <= i < pieces.len() ==> is_component(#[trigger] pieces[i]) {
        Some(values(pieces))
    } else {
        None
    }
}

/// The dotted writing of a sequence of components.
pub open spec fn written(release: Seq<nat>) -> Seq<char> {
    join(release.map_values(|n: nat| decimal(n)), '.')
}

/// `a` is strictly smaller than `b`: at the first place where they differ
/// `a` holds the smaller number, or `a` ends there and `b` goes on.
pub open spec fn precedes(a: Seq<nat>, b: Seq<nat>) -> bool
    decreases a.len(),
{
    if a.len() == 0 {
        b.len() > 0
    } else if b.len() == 0 {
        false
    } else if a[0] != b[0] {
        a[0] < b[0]
    } else {
        precedes(a.skip(1), b.skip(1))
    }
}

/// The order on versions that may have failed to parse: one that failed
/// comes before every one that parsed, and two that failed are level.
pub open spec fn below(a: Option<Seq<nat>>, b: Option<Seq<nat>>) -> bool {
    match (a, b) {
        (None, None) => false,
        (None, Some(_)) => true,
        (Some(_), None) => false,
        (Some(x), Some(y)) => precedes(x, y),
    }
}

/// The first `depth` components of `release`, or all of them where it has
/// fewer.
pub open spec fn truncated(release: Seq<nat>, depth: nat) -> Seq<nat> {
    if depth <= release.len() {
        release.take(depth as int)
    } else {
        release
    }
}

/// The components of a vector of numbers.
pub open spec fn naturals(components: Seq<u64>) -> Seq<nat> {
    components.map_values(|c: u64| c as nat)
}

/// No version precedes itself.
pub proof fn lemma_precedes_irreflexive(a: Seq<nat>)
    ensures
        !precedes(a, a),
    decreases a.len(),
{
    if a.len() > 0 {
        lemma_precedes_irreflexive(a.skip(1));
    }
}

/// Of two versions at most one precedes the other.
pub proof fn lemma_precedes_asymmetric(a: Seq<nat>, b: Seq<nat>)
    requires
        precedes(a, b),
    ensures
        !precedes(b, a),
    decreases a.len(),
{
    if a.len() > 0 && b.len() > 0 && a[0] == b[0] {
        lemma_precedes_asymmetric(a.skip(1), b.skip(1));
    }
}

/// What precedes a version precedes all that the version precedes.
pub proof fn lemma_precedes_transitive(a: Seq<nat>, b: Seq<nat>, c: Seq<nat>)
    requires
        precedes(a, b),
        precedes(b, c),
    ensures
        precedes(a, c),
    decreases a.len(),
{
    if a.len() > 0 && b.len() > 0 && c.len() > 0 && a[0] == b[0] && b[0] == c[0] {
        lemma_precedes_transitive(a.skip(1), b.skip(1), c.skip(1));
    }
}

/// Two versions of which neither precedes the other are the same version.
pub proof fn lemma_precedes_total(a: Seq<nat>, b: Seq<nat>)
    ensures
        precedes(a, b) || precedes(b, a) || a == b,
    decreases a.len(),
{
    if a.len() > 0 && b.len() > 0 && a[0] == b[0] {
        lemma_precedes_total(a.skip(1), b.skip(1));
        if a.skip(1) == b.skip(1) {
            assert(a == seq![a[0]] + a.skip(1));
            assert(b == seq![b[0]] + b.skip(1));
        }
    } else if a.len() == 0 && b.len() == 0 {
        assert(a == b);
    }
}

/// `below` is a strict order in which two versions are level only where they
/// are the same or both failed to parse.
pub proof fn lemma_below_is_strict_total(
    a: Option<Seq<nat>>,
    b: Option<Seq<nat>>,
    c: Option<Seq<nat>>,
)
    ensures
        !below(a, a),
        below(a, b) ==> !below(b, a),
        below(a, b) && below(b, c) ==> below(a, c),
        !below(a, b) && !below(b, a) ==> a == b,
{
    match (a, b) {
        (Some(x), Some(y)) => {
            lemma_precedes_irreflexive(x);
            lemma_precedes_total(x, y);
            if precedes(x, y) {
                lemma_precedes_asymmetric(x, y);
                if let Some(z) = c {
                    if precedes(y, z) {
                        lemma_precedes_transitive(x, y, z);
                    }
                }
            }
        },
        (Some(x), None) => {
            lemma_precedes_irreflexive(x);
        },
        _ => {},
    }
}

/// Where two versions agree on their first `k` components, their order is
/// that of what follows.
pub proof fn lemma_precedes_after_common_prefix(a: Seq<nat>, b: Seq<nat>, k: int)
    requires
        0 <= k <= a.len(),
        k <= b.len(),
        a.take(k) == b.take(k),
    ensures
        precedes(a, b) == precedes(a.skip(k), b.skip(k)),
        (a == b) == (a.skip(k) == b.skip(k)),
    decreases k,
{
    if k == 0 {
        assert(a.skip(0) == a);
        assert(b.skip(0) == b);
    } else {
        assert(a[0] == a.take(k)[0]);
        assert(b[0] == b.take(k)[0]);
        assert(a.skip(1).take(k - 1) == a.take(k).skip(1));
        assert(b.skip(1).take(k - 1) == b.take(k).skip(1));
        lemma_precedes_after_common_prefix(a.skip(1), b.skip(1), k - 1);
        assert(a.skip(1).skip(k - 1) == a.skip(k));
        assert(b.skip(1).skip(k - 1) == b.skip(k));
        if a.skip(k) == b.skip(k) {
            assert(a == a.take(k) + a.skip(k));
            assert(b == b.take(k) + b.skip(k));
        }
    }
}

/// `-1` where `a` precedes `b`, `1` where `b` precedes `a`, `0` where they
/// are the same.
pub open spec fn sign(a: Seq<nat>, b: Seq<nat>) -> int {
    if precedes(a, b) {
        -1
    } else if precedes(b, a) {
        1
    } else {
        0
    }
}

/// Orders two component vectors.
pub fn order_sign(a: &Vec<u64>, b: &Vec<u64>) -> (r: i8)
    ensures
        r == sign(naturals(a@), naturals(b@)),
        (r == 0) == (a@ == b@),
{
    let ghost na = naturals(a@);
    let ghost nb = naturals(b@);
    let mut i: usize = 0;
    while i < a.len() && i < b.len()
        invariant
            i <= a.len(),
            i <= b.len(),
            na == naturals(a@),
            nb == naturals(b@),
            na.take(i as int) == nb.take(i as int),
            a@.take(i as int) == b@.take(i as int),
        decreases a.len() - i,
    {
        proof {
            lemma_precedes_after_common_prefix(na, nb, i as int);
            assert(na.skip(i as int)[0] == a@[i as int] as nat);
            assert(nb.skip(i as int)[0] == b@[i as int] as nat);
        }
        if a[i] < b[i] {
            proof {
                lemma_precedes_asymmetric(na, nb);
                assert(a@[i as int] != b@[i as int]);
            }
            return -1;
        }
        if a[i] > b[i] {
            proof {
                lemma_precedes_after_common_prefix(nb, na, i as int);
                lemma_precedes_asymmetric(nb, na);
                assert(a@[i as int] != b@[i as int]);
            }
            return 1;
        }
        proof {
            assert(na.take(i + 1) == na.take(i as int).push(na[i as int]));
            assert(nb.take(i + 1) == nb.take(i as int).push(nb[i as int]));
            assert(a@.take(i + 1) == a@.take(i as int).push(a@[i as int]));
            assert(b@.take(i + 1) == b@.take(i as int).push(b@[i as int]));
        }
        i += 1;
    }
    proof {
        lemma_precedes_after_common_prefix(na, nb, i as int);
        lemma_precedes_after_common_prefix(nb, na, i as int);
        if a.len() == b.len() {
            assert(a@.take(i as int) == a@);
            assert(b@.take(i as int) == b@);
            lemma_precedes_irreflexive(na);
        }
    }
    if a.len() < b.len() {
        -1
    } else if a.len() > b.len() {
        1
    } else {
        0
    }
}

/// Reads every piece as a component.
fn parse_pieces(pieces: &Vec<Vec<char>>) -> (r: Option<Vec<u64>>)
    ensures
        r is Some <==> (forall|i: int|
            0 <= i < pieces.len() ==> is_component(#[trigger] texts(pieces@)[i])),
        r matches Some(v) ==> naturals(v@) == values(texts(pieces@)),
{
    let mut out: Vec<u64> = Vec::new();
    let mut i: usize = 0;
    while i < pieces.len()
        invariant
            i <= pieces.len(),
            out.len() == i,
            forall|j: int| 0 <= j < i ==> is_component(#[trigger] texts(pieces@)[j]),
            forall|j: int| 0 <= j < i ==> out@[j] as nat == number_value(pieces@[j]@),
        decreases pieces.len() - i,
    {
        assert(texts(pieces@)[i as int] == pieces@[i as int]@);
        match parse_number(&pieces[i]) {
            Some(n) => {
                out.push(n);
            },
            None => {
                return None;
            },
        }
        i += 1;
    }
    proof {
        assert(naturals(out@) =~= values(texts(pieces@)));
    }
    Some(out)
}

/// Reads the components of the version that `raw` writes.
pub fn parse_components(raw: &Vec<char>) -> (r: Option<Vec<u64>>)
    ensures
        r is Some <==> parsed(raw@) is Some,
        r matches Some(v) ==> Some(naturals(v@)) == parsed(raw@),
{
    let legacy = raw.len() >= 2 && raw[0] == '1' && raw[1] == '.';
    proof {
        if raw.len() >= 2 {
            assert(raw@.take(2) =~= seq![raw@[0], raw@[1]]);
        }
        assert(legacy == has_prefix(raw@, legacy_prefix()));
    }
    let rest = if legacy {
        slice_of(raw, 2, raw.len())
    } else {
        slice_of(raw, 0, raw.len())
    };
    proof {
        assert(raw@.subrange(0, raw.len() as int) == raw@);
        assert(raw@.subrange(2, raw.len() as int) == raw@.skip(2));
    }
    let dotted = replace_char(&rest, '_', '.');
    let pieces = split_on(&dotted, '.');
    parse_pieces(&pieces)
}

impl Version {
    /// The components as mathematical numbers.
    pub open spec fn release(&self) -> Seq<nat> {
        naturals(self.components@)
    }

    /// Reads a version. A leading `1.` is dropped and `_` counts as `.`, so
    /// that `1.8.0_292` reads as `8.0.292`. There is no version where a piece
    /// between two dots is not a number.
    pub fn parse(raw: &str) -> (r: Option<Version>)
        ensures
            r is Some <==> parsed(raw@) is Some,
            r matches Some(v) ==> Some(v.release()) == parsed(raw@) && !v.is_prerelease
                && !v.is_development,
    {
        let chars = chars_of(raw);
        match parse_components(&chars) {
            Some(components) => Some(
                Version { components, is_prerelease: false, is_development: false },
            ),
            None => None,
        }
    }

    /// Orders two versions by their components.
    pub fn compare(&self, other: &Version) -> (r: Ordering)
        ensures
            (r == Ordering::Less) == precedes(self.release(), other.release()),
            (r == Ordering::Greater) == precedes(other.release(), self.release()),
            (r == Ordering::Equal) == (self.release() == other.release()),
    {
        let s = order_sign(&self.components, &other.components);
        proof {
            lemma_precedes_irreflexive(self.release());
            if precedes(self.release(), other.release()) {
                lemma_precedes_asymmetric(self.release(), other.release());
            }
        }
        if s < 0 {
            Ordering::Less
        } else if s > 0 {
            Ordering::Greater
        } else {
            Ordering::Equal
        }
    }

    /// The dotted writing of the components.
    pub fn to_string(&self) -> (out: String)
        ensures
            out@ == written(self.release()),
    {
        let mut pieces: Vec<Vec<char>> = Vec::new();
        let mut i: usize = 0;
        while i < self.components.len()
            invariant
                i <= self.components.len(),
                pieces.len() == i,
                forall|j: int| 0 <= j < i ==> pieces@[j]@ == decimal(self.components@[j] as nat),
            decreases self.components.len() - i,
        {
            pieces.push(render_number(self.components[i]));
            i += 1;
        }
        proof {
            assert(texts(pieces@) =~= self.release().map_values(|n: nat| decimal(n)));
        }
        let chars = join_with(&pieces, '.');
        string_of(&chars)
    }
}

/// A run of digits holds neither a dot nor an underscore.
proof fn lemma_digits_free(s: Seq<char>)
    requires
        all_digits(s),
    ensures
        free_of(s, '.'),
        free_of(s, '_'),
{
    assert forall|i: int| 0 <= i < s.len() implies s[i] != '.' && s[i] != '_' by {
        assert(digit_of(s[i]) is Some);
    }
}

/// What was joined begins with its first piece, and goes on with the
/// separator where there are more pieces.
proof fn lemma_join_head(pieces: Seq<Seq<char>>, sep: char)
    requires
        pieces.len() >= 1,
    ensures
        has_prefix(join(pieces, sep), pieces[0]),
        pieces.len() == 1 ==> join(pieces, sep) == pieces[0],
        pieces.len() >= 2 ==> join(pieces, sep).len() > pieces[0].len() && join(
            pieces,
            sep,
        )[pieces[0].len() as int] == sep,
    decreases pieces.len(),
{
    if pieces.len() == 1 {
        assert(pieces[0].take(pieces[0].len() as int) == pieces[0]);
    } else {
        let head = pieces.drop_last();
        lemma_join_head(head, sep);
        assert(head[0] == pieces[0]);
        let front = join(head, sep);
        let whole = front.push(sep) + pieces.last();
        assert(whole.take(pieces[0].len() as int) == front.take(pieces[0].len() as int));
        if head.len() == 1 {
            assert(whole[pieces[0].len() as int] == sep);
        } else {
            assert(whole[pieces[0].len() as int] == front[pieces[0].len() as int]);
        }
    }
}

/// What was joined is free of a character that neither the pieces nor the
/// separator hold.
proof fn lemma_join_free(pieces: Seq<Seq<char>>, sep: char, c: char)
    requires
        sep != c,
        forall|i: int| 0 <= i < pieces.len() ==> free_of(#[trigger] pieces[i], c),
    ensures
        free_of(join(pieces, sep), c),
    decreases pieces.len(),
{
    if pieces.len() == 1 {
        assert(free_of(pieces[0], c));
    } else if pieces.len() >= 2 {
        let head = pieces.drop_last();
        assert forall|i: int| 0 <= i < head.len() implies free_of(#[trigger] head[i], c) by {
            assert(head[i] == pieces[i]);
        }
        lemma_join_free(head, sep, c);
        assert(free_of(pieces[pieces.len() - 1], c));
    }
}

/// Writing a version and reading it back gives the same components, in the
/// same order. The one writing that reads back otherwise starts with the
/// component `1` and goes on: its leading `1.` is taken for the legacy
/// prefix.
pub proof fn lemma_written_parses_back(release: Seq<nat>)
    requires
        release.len() >= 1,
        forall|i: int| 0 <= i < release.len() ==> #[trigger] release[i] <= u64::MAX,
        !(release.len() >= 2 && release[0] == 1),
    ensures
        parsed(written(release)) == Some(release),
{
    let pieces = release.map_values(|n: nat| decimal(n));
    let text = written(release);
    assert forall|i: int| 0 <= i < pieces.len() implies is_component(#[trigger] pieces[i])
        && free_of(pieces[i], '.') && free_of(pieces[i], '_') && number_value(pieces[i])
        == release[i] by {
        lemma_decimal_round_trip(release[i]);
        lemma_digits_free(pieces[i]);
    }
    lemma_join_head(pieces, '.');
    lemma_join_free(pieces, '.', '_');
    assert(!has_prefix(text, legacy_prefix())) by {
        if has_prefix(text, legacy_prefix()) {
            assert(text.take(2)[0] == '1');
            assert(text.take(2)[1] == '.');
            let first = pieces[0];
            lemma_decimal_round_trip(release[0]);
            assert(first.len() >= 1);
            assert(text.take(first.len() as int)[0] == first[0]);
            if first.len() >= 2 {
                assert(text.take(first.len() as int)[1] == first[1]);
                assert(first[1] != '.');
            } else {
                assert(first =~= seq!['1']);
                assert(first.drop_last() =~= Seq::<char>::empty());
                assert(number_value(first.drop_last()) == 0);
                assert(number_value(first) == 1);
                assert(release.len() == 1);
                assert(text == first);
            }
        }
    }
    assert(swap_char(text, '_', '.') =~= text);
    lemma_split_join(pieces, '.');
    assert(values(pieces) =~= release);
}

/// A version that was read has at least one component, and each of its
/// components fits 64 bits.
pub proof fn lemma_parsed_is_a_release(raw: Seq<char>)
    requires
        parsed(raw) is Some,
    ensures
        parsed(raw).unwrap().len() >= 1,
        forall|i: int|
            0 <= i < parsed(raw).unwrap().len() ==> #[trigger] parsed(raw).unwrap()[i] <= u64::MAX,
{
    let pieces = split(normalized(raw), '.');
    lemma_split_nonempty(normalized(raw), '.');
    assert forall|i: int| 0 <= i < pieces.len() implies #[trigger] values(pieces)[i]
        <= u64::MAX by {
        assert(is_component(pieces[i]));
    }
}

/// Reading a version, writing it and reading it again gives the components
/// that the first reading gave, in the same order. This holds of every
/// text that reads as a version, but for those whose version starts with
/// the component `1` and goes on: written, such a version begins with `1.`,
/// which the next reading takes off.
pub proof fn lemma_read_write_read(raw: Seq<char>)
    requires
        parsed(raw) matches Some(release) && !(release.len() >= 2 && release[0] == 1),
    ensures
        parsed(written(parsed(raw).unwrap())) == parsed(raw),
{
    lemma_parsed_is_a_release(raw);
    lemma_written_parses_back(parsed(raw).unwrap());
}

/// A version that stops where another goes on precedes it: `11` comes
/// before `11.0`, whatever the numbers that follow.
pub proof fn lemma_prefix_precedes(a: Seq<nat>, b: Seq<nat>)
    requires
        a.len() < b.len(),
        b.take(a.len() as int) == a,
    ensures
        precedes(a, b),
    decreases a.len(),
{
    if a.len() > 0 {
        assert(b.take(a.len() as int)[0] == b[0]);
        assert(b.skip(1).take(a.len() - 1) == b.take(a.len() as int).skip(1));
        lemma_prefix_precedes(a.skip(1), b.skip(1));
    }
}

/// The legacy prefix does not count: a text reads the same with `1.` in
/// front of it, unless it carries that prefix already.
pub proof fn lemma_legacy_prefix_is_dropped(raw: Seq<char>)
    requires
        !has_prefix(raw, legacy_prefix()),
    ensures
        parsed(legacy_prefix() + raw) == parsed(raw),
{
    let longer = legacy_prefix() + raw;
    assert(longer.take(2) == legacy_prefix());
    assert(longer.skip(2) == raw);
}

/// An underscore reads as a dot: a text reads the same with its underscores
/// written as dots, unless it starts with `1_`, which as `1.` would be the
/// legacy prefix.
pub proof fn lemma_underscore_reads_as_dot(raw: Seq<char>)
    requires
        !has_prefix(raw, seq!['1', '_']),
    ensures
        parsed(swap_char(raw, '_', '.')) == parsed(raw),
{
    let dotted = swap_char(raw, '_', '.');
    if raw.len() >= 2 {
        assert(raw.take(2) =~= seq![raw[0], raw[1]]);
        assert(dotted.take(2) =~= seq![dotted[0], dotted[1]]);
    }
    assert(has_prefix(dotted, legacy_prefix()) == has_prefix(raw, legacy_prefix()));
    if has_prefix(raw, legacy_prefix()) {
        assert(swap_char(dotted.skip(2), '_', '.') =~= swap_char(raw.skip(2), '_', '.'));
    } else {
        assert(swap_char(dotted, '_', '.') =~= swap_char(raw, '_', '.'));
    }
}

/// An exact spec looks no further than its own depth: a candidate that
/// begins with the components of the spec meets it, whatever follows them.
pub proof fn lemma_exact_spec_ignores_depth(candidate: Seq<char>, spec: Seq<char>)
    requires
        !is_minimum(spec),
        parsed(candidate) is Some,
        parsed(spec) is Some,
        parsed(spec).unwrap().len() <= parsed(candidate).unwrap().len(),
        parsed(candidate).unwrap().take(parsed(spec).unwrap().len() as int) == parsed(
            spec,
        ).unwrap(),
    ensures
        satisfies(candidate, spec),
{
}

/// A minimum is met by every candidate whose components, cut to the depth
/// of the spec, are those of the spec or later ones; so by the version the
/// spec names itself.
pub proof fn lemma_minimum_is_inclusive(candidate: Seq<char>, spec: Seq<char>)
    requires
        is_minimum(spec),
        parsed(candidate) is Some,
        parsed(candidate) == parsed(bound_text(spec)),
    ensures
        satisfies(candidate, spec),
{
    let release = parsed(candidate).unwrap();
    assert(release.take(release.len() as int) == release);
    lemma_precedes_irreflexive(release);
}

/// A version spec that ends in `+` asks for that version or a later one.
pub open spec fn is_minimum(spec: Seq<char>) -> bool {
    spec.len() > 0 && spec.last() == '+'
}

/// The version that a spec names: the spec itself, without the `+` of a
/// minimum.
pub open spec fn bound_text(spec: Seq<char>) -> Seq<char> {
    if is_minimum(spec) {
        spec.drop_last()
    } else {
        spec
    }
}

/// Whether the candidate version meets the spec. Only as many components as
/// the spec names are looked at. An exact spec asks that they be the same; a
/// minimum asks that they be no smaller. A candidate or a spec that does not
/// parse meets nothing and is met by nothing; so a bare `+`, which names no
/// component, is met by no candidate.
pub open spec fn satisfies(candidate: Seq<char>, spec: Seq<char>) -> bool {
    match (parsed(candidate), parsed(bound_text(spec))) {
        (Some(c), Some(b)) => {
            let head = truncated(c, b.len());
            if is_minimum(spec) {
                !precedes(head, b)
            } else {
                head == b
            }
        },
        _ => false,
    }
}

/// Whether the parsed candidate meets the bound on as many components as the
/// bound has.
pub fn meets_bound(candidate: &Vec<u64>, bound: &Vec<u64>, minimum: bool) -> (r: bool)
    ensures
        r == ({
            let head = truncated(naturals(candidate@), bound@.len());
            if minimum {
                !precedes(head, naturals(bound@))
            } else {
                head == naturals(bound@)
            }
        }),
{
    let depth = if bound.len() <= candidate.len() {
        bound.len()
    } else {
        candidate.len()
    };
    let head = slice_of_numbers(candidate, depth);
    proof {
        assert(naturals(head@) =~= truncated(naturals(candidate@), bound@.len()));
        lemma_precedes_total(naturals(head@), naturals(bound@));
        lemma_precedes_irreflexive(naturals(head@));
        if precedes(naturals(head@), naturals(bound@)) {
            lemma_precedes_asymmetric(naturals(head@), naturals(bound@));
        }
        if head@ == bound@ {
            assert(naturals(head@) == naturals(bound@));
        }
        if naturals(head@) == naturals(bound@) {
            assert(head@ =~= bound@) by {
                assert(head@.len() == naturals(head@).len());
                assert(bound@.len() == naturals(bound@).len());
                assert forall|i: int| 0 <= i < head@.len() implies head@[i] == bound@[i] by {
                    assert(naturals(head@)[i] == head@[i] as nat);
                    assert(naturals(bound@)[i] == bound@[i] as nat);
                }
            }
        }
    }
    let s = order_sign(&head, bound);
    if minimum {
        s >= 0
    } else {
        s == 0
    }
}

/// The first `depth` numbers of `v`.
fn slice_of_numbers(v: &Vec<u64>, depth: usize) -> (out: Vec<u64>)
    requires
        depth <= v.len(),
    ensures
        out@ == v@.take(depth as int),
{
    let mut out: Vec<u64> = Vec::new();
    let mut i: usize = 0;
    while i < depth
        invariant
            i <= depth <= v.len(),
            out@ == v@.take(i as int),
        decreases depth - i,
    {
        out.push(v[i]);
        proof {
            assert(v@.take(i + 1) == v@.take(i as int).push(v@[i as int]));
        }
        i += 1;
    }
    out
}

/// Whether the candidate version meets the spec, both given as characters.
pub fn satisfies_chars(candidate: &Vec<char>, spec: &Vec<char>) -> (r: bool)
    ensures
        r == satisfies(candidate@, spec@),
{
    let minimum = spec.len() > 0 && spec[spec.len() - 1] == '+';
    let bound = if minimum {
        slice_of(spec, 0, spec.len() - 1)
    } else {
        slice_of(spec, 0, spec.len())
    };
    proof {
        assert(spec@.subrange(0, spec.len() as int) == spec@);
        if minimum {
            assert(spec@.subrange(0, spec.len() - 1) == spec@.drop_last());
        }
        assert(bound@ == bound_text(spec@));
    }
    let c = match parse_components(candidate) {
        Some(c) => c,
        None => {
            return false;
        },
    };
    let b = match parse_components(&bound) {
        Some(b) => b,
        None => {
            return false;
        },
    };
    meets_bound(&c, &b, minimum)
}

/// Whether the candidate version meets the spec.
pub fn satisfies_spec(candidate: &str, spec: &str) -> (r: bool)
    ensures
        r == satisfies(candidate@, spec@),
{
    let c = chars_of(candidate);
    let s = chars_of(spec);
    satisfies_chars(&c, &s)
}

} // verus!
