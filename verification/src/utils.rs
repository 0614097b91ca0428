//! Paths as text: the segments of a path, its last segment with its stem
//! and extension, and a path as seen from a directory above it.
//!
//! A path is a sequence of characters. `/` and `\` separate its segments;
//! a segment that is empty or `.` stands for nothing, so that `/a//b/.`
//! and `/a/b` are one path. A path that starts with a separator starts at
//! the root.

use vstd::prelude::*;
use vstd::string::*;
use crate::text::{
    chars_of, first_where, last_where, lemma_first_where, lemma_first_where_is_first,
    lemma_last_where, lowercase, lowered, pad_left, padded, signed_decimal, string_of,
    to_signed_decimal,
};

verus! {

/// The characters that separate the segments of a path.
pub open spec fn is_separator(c: char) -> bool {
    c == '/' || c == '\\'
}

/// The kind of the separators.
pub open spec fn separator() -> spec_fn(char) -> bool {
    |c: char| is_separator(c)
}

/// The kind of the dot.
pub open spec fn dot() -> spec_fn(char) -> bool {
    |c: char| c == '.'
}

/// Whether what stands between two separators counts as a segment: it is
/// neither empty nor `.`.
pub open spec fn is_name(segment: Seq<char>) -> bool {
    segment.len() > 0 && !(segment.len() == 1 && segment[0] == '.')
}

/// Whether `segment` is `..`, the way back up.
pub open spec fn is_parent(segment: Seq<char>) -> bool {
    segment.len() == 2 && segment[0] == '.' && segment[1] == '.'
}

/// The segments of `path`, in order: what stands between its separators,
/// but for what is empty or `.`.
pub open spec fn segments(path: Seq<char>) -> Seq<Seq<char>>
    decreases path.len(),
{
    if path.len() == 0 {
        Seq::empty()
    } else {
        let end = first_where(path, separator());
        let rest = if 0 <= end < path.len() {
            segments(path.skip(end + 1))
        } else {
            Seq::empty()
        };
        if is_name(path.take(end)) {
            seq![path.take(end)] + rest
        } else {
            rest
        }
    }
}

/// Whether `path` starts at the root: it starts with a separator.
pub open spec fn has_root(path: Seq<char>) -> bool {
    path.len() > 0 && is_separator(path.first())
}

/// The name that `path` ends in: its last segment. A path without
/// segments has none, nor has one that ends in `..`; the name is then
/// empty.
pub open spec fn spec_filename(path: Seq<char>) -> Seq<char> {
    let all = segments(path);
    if all.len() == 0 || is_parent(all.last()) {
        Seq::empty()
    } else {
        all.last()
    }
}

/// How many characters of the file name `name` make up its stem: all of
/// them where `name` holds no dot, or none but the one it starts with, and
/// else those before its last dot.
pub open spec fn stem_len(name: Seq<char>) -> int {
    let last_dot = last_where(name, dot());
    if last_dot <= 0 {
        name.len() as int
    } else {
        last_dot
    }
}

/// The name that `path` ends in, without its extension.
pub open spec fn spec_filestem(path: Seq<char>) -> Seq<char> {
    let name = spec_filename(path);
    name.take(stem_len(name))
}

/// The extension of the name that `path` ends in, as it is written: what
/// follows the dot that ends the stem, and nothing where there is none.
pub open spec fn written_extension(path: Seq<char>) -> Seq<char> {
    let name = spec_filename(path);
    if stem_len(name) == name.len() {
        Seq::empty()
    } else {
        name.skip(stem_len(name) + 1)
    }
}

/// The extension of the name that `path` ends in, in small letters.
pub open spec fn spec_extension(path: Seq<char>) -> Seq<char> {
    lowered(written_extension(path))
}

/// Whether `path` is `base` or lies below it: both start at the root or
/// neither does, and the segments of `path` begin with those of `base`.
pub open spec fn is_within(path: Seq<char>, base: Seq<char>) -> bool {
    &&& has_root(path) == has_root(base)
    &&& segments(base).is_prefix_of(segments(path))
}

/// The segments `parts` with `/` between them.
pub open spec fn joined(parts: Seq<Seq<char>>) -> Seq<char>
    decreases parts.len(),
{
    if parts.len() == 0 {
        Seq::empty()
    } else if parts.len() == 1 {
        parts[0]
    } else {
        joined(parts.drop_last()) + seq!['/'] + parts.last()
    }
}

/// `path` as seen from `base`: the segments of `path` that follow those of
/// `base`, with `/` between them. `None` where `path` does not lie within
/// `base`.
pub open spec fn spec_relative(path: Seq<char>, base: Seq<char>) -> Option<Seq<char>> {
    if is_within(path, base) {
        Some(joined(segments(path).skip(segments(base).len() as int)))
    } else {
        None
    }
}

/// Whether `path` reads as a path relative to some directory: it does not
/// start with `/`, and `/` alone separates its segments.
pub open spec fn is_relative_path(path: Seq<char>) -> bool {
    &&& path.len() > 0 ==> path.first() != '/'
    &&& forall|k: int| 0 <= k < path.len() ==> path[k] != '\\'
}

/// The parts of `chars` that `ranges` mark, each from its first place up
/// to its second.
pub open spec fn texts_of(chars: Seq<char>, ranges: Seq<(usize, usize)>) -> Seq<Seq<char>> {
    Seq::new(ranges.len(), |j: int| chars.subrange(ranges[j].0 as int, ranges[j].1 as int))
}

/// Whether each of `ranges` lies within a text of `len` characters.
pub open spec fn ranges_fit(ranges: Seq<(usize, usize)>, len: int) -> bool {
    forall|j: int| 0 <= j < ranges.len() ==> (#[trigger] ranges[j]).0 <= ranges[j].1 <= len
}

/// Every segment of a path holds a character, and none of them a
/// separator.
pub proof fn lemma_segments_are_names(path: Seq<char>, j: int)
    requires
        0 <= j < segments(path).len(),
    ensures
        segments(path)[j].len() > 0,
        forall|k: int| 0 <= k < segments(path)[j].len() ==> !is_separator(segments(path)[j][k]),
    decreases path.len(),
{
    let end = first_where(path, separator());
    lemma_first_where_is_first(path, separator());
    let head = path.take(end);
    if is_name(head) && j == 0 {
        assert forall|k: int| 0 <= k < head.len() implies !is_separator(head[k]) by {
            assert(!separator()(path[k]));
        }
    } else {
        let rest = path.skip(end + 1);
        if is_name(head) {
            assert(segments(path)[j] == segments(rest)[j - 1]);
            lemma_segments_are_names(rest, j - 1);
        } else {
            lemma_segments_are_names(rest, j);
        }
    }
}

/// Segments with `/` between them read as a relative path.
pub proof fn lemma_joined_is_relative(parts: Seq<Seq<char>>)
    requires
        forall|j: int|
            0 <= j < parts.len() ==> (#[trigger] parts[j]).len() > 0 && forall|k: int|
                0 <= k < parts[j].len() ==> !is_separator(parts[j][k]),
    ensures
        is_relative_path(joined(parts)),
        parts.len() > 0 ==> joined(parts).len() > 0 && joined(parts).first() == parts[0].first(),
    decreases parts.len(),
{
    if parts.len() == 1 {
        assert(parts[0].len() > 0);
        assert(!is_separator(parts[0][0]));
    } else if parts.len() > 1 {
        let short = parts.drop_last();
        assert forall|j: int| 0 <= j < short.len() implies (#[trigger] short[j]).len() > 0
            && forall|k: int| 0 <= k < short[j].len() ==> !is_separator(short[j][k]) by {
            assert(short[j] == parts[j]);
        }
        lemma_joined_is_relative(short);
        let last = parts.last();
        assert(last == parts[parts.len() - 1]);
        let whole = joined(parts);
        assert(whole.first() == joined(short).first());
        assert(short[0] == parts[0]);
        assert(!is_separator(parts[0][0]));
        assert forall|k: int| 0 <= k < whole.len() implies whole[k] != '\\' by {
            let n = joined(short).len();
            if k < n {
                assert(whole[k] == joined(short)[k]);
            } else if k > n {
                assert(whole[k] == last[k - n - 1]);
                assert(!is_separator(last[k - n - 1]));
            }
        }
    }
}

/// A path that was made relative never reads as an absolute path.
pub proof fn lemma_relative_is_not_absolute(path: Seq<char>, base: Seq<char>)
    requires
        is_within(path, base),
    ensures
        is_relative_path(spec_relative(path, base)->0),
{
    let all = segments(path);
    let parts = all.skip(segments(base).len() as int);
    assert forall|j: int| 0 <= j < parts.len() implies (#[trigger] parts[j]).len() > 0
        && forall|k: int| 0 <= k < parts[j].len() ==> !is_separator(parts[j][k]) by {
        lemma_segments_are_names(path, j + segments(base).len());
    }
    lemma_joined_is_relative(parts);
}

/// Whether `c` separates the segments of a path.
pub fn separates(c: char) -> (b: bool)
    ensures
        b == is_separator(c),
{
    c == '/' || c == '\\'
}

/// Where the segments of the path `chars` start and end, in order.
pub fn split(chars: &Vec<char>) -> (ranges: Vec<(usize, usize)>)
    ensures
        texts_of(chars@, ranges@) == segments(chars@),
        ranges_fit(ranges@, chars.len() as int),
{
    let mut ranges: Vec<(usize, usize)> = Vec::new();
    let mut start: usize = 0;
    let mut i: usize = 0;
    assert(chars@.skip(0) =~= chars@);
    assert(texts_of(chars@, ranges@) =~= Seq::<Seq<char>>::empty());
    while i < chars.len()
        invariant
            start <= i <= chars.len(),
            forall|k: int| start <= k < i ==> !is_separator(chars@[k]),
            segments(chars@) == texts_of(chars@, ranges@) + segments(chars@.skip(start as int)),
            ranges_fit(ranges@, chars.len() as int),
        decreases chars.len() - i,
    {
        if separates(chars[i]) {
            let ghost rest = chars@.skip(start as int);
            let ghost done = texts_of(chars@, ranges@);
            proof {
                assert forall|k: int| 0 <= k < i - start implies !separator()(rest[k]) by {
                    assert(rest[k] == chars@[start + k]);
                }
                assert(separator()(rest[i - start]));
                lemma_first_where(rest, separator(), i - start);
                assert(rest.take(i - start) =~= chars@.subrange(start as int, i as int));
                assert(rest.skip(i - start + 1) =~= chars@.skip(i + 1));
            }
            if i > start && !(i - start == 1 && chars[start] == '.') {
                ranges.push((start, i));
                assert(texts_of(chars@, ranges@) =~= done.push(
                    chars@.subrange(start as int, i as int),
                ));
                assert(segments(chars@) =~= texts_of(chars@, ranges@) + segments(
                    chars@.skip(i + 1),
                ));
            }
            start = i + 1;
        }
        i += 1;
    }
    let ghost rest = chars@.skip(start as int);
    let ghost done = texts_of(chars@, ranges@);
    proof {
        if start < chars.len() {
            assert forall|k: int| 0 <= k < rest.len() implies !separator()(rest[k]) by {
                assert(rest[k] == chars@[start + k]);
            }
            lemma_first_where(rest, separator(), rest.len() as int);
            assert(rest.take(rest.len() as int) =~= chars@.subrange(
                start as int,
                chars.len() as int,
            ));
        }
    }
    if chars.len() > start && !(chars.len() - start == 1 && chars[start] == '.') {
        ranges.push((start, chars.len()));
        assert(texts_of(chars@, ranges@) =~= done.push(
            chars@.subrange(start as int, chars.len() as int),
        ));
    }
    assert(segments(chars@) =~= texts_of(chars@, ranges@));
    ranges
}

/// Whether `a[from..to]` and `b[start..end]` hold the same characters.
pub fn same_parts(
    a: &Vec<char>,
    from: usize,
    to: usize,
    b: &Vec<char>,
    start: usize,
    end: usize,
) -> (same: bool)
    requires
        from <= to <= a.len(),
        start <= end <= b.len(),
    ensures
        same == (a@.subrange(from as int, to as int) == b@.subrange(start as int, end as int)),
{
    if to - from != end - start {
        assert(a@.subrange(from as int, to as int).len() != b@.subrange(
            start as int,
            end as int,
        ).len());
        return false;
    }
    let n: usize = to - from;
    let mut i: usize = 0;
    while i < n
        invariant
            from <= to <= a.len(),
            start <= end <= b.len(),
            n == to - from,
            n == end - start,
            i <= n,
            forall|k: int| 0 <= k < i ==> #[trigger] a@[from + k] == b@[start + k],
        decreases n - i,
    {
        if a[from + i] != b[start + i] {
            assert(a@.subrange(from as int, to as int)[i as int] != b@.subrange(
                start as int,
                end as int,
            )[i as int]);
            return false;
        }
        i += 1;
    }
    assert forall|k: int| 0 <= k < n implies a@.subrange(from as int, to as int)[k]
        == b@.subrange(start as int, end as int)[k] by {
        assert(a@[from + k] == b@[start + k]);
    }
    assert(a@.subrange(from as int, to as int) =~= b@.subrange(start as int, end as int));
    true
}

/// Where the stem of the file name `chars` ends.
fn stem_end(chars: &Vec<char>) -> (split: usize)
    ensures
        split <= chars.len(),
        split == stem_len(chars@),
{
    let mut at: usize = chars.len();
    while at > 0 && chars[at - 1] != '.'
        invariant
            at <= chars.len(),
            forall|k: int| at <= k < chars.len() ==> !dot()(chars@[k]),
        decreases at,
    {
        at -= 1;
    }
    proof {
        lemma_last_where(chars@, dot(), at - 1);
    }
    if at <= 1 {
        chars.len()
    } else {
        at - 1
    }
}

/// The name that the path `fp` ends in, and the empty string where it ends
/// in none.
pub fn get_filename(fp: &str) -> (name: String)
    ensures
        name@ == spec_filename(fp@),
{
    let chars = chars_of(fp);
    let ranges = split(&chars);
    if ranges.len() == 0 {
        return String::new();
    }
    let (from, to) = ranges[ranges.len() - 1];
    assert(texts_of(chars@, ranges@).last() == chars@.subrange(from as int, to as int));
    if to - from == 2 && chars[from] == '.' && chars[from + 1] == '.' {
        String::new()
    } else {
        string_of(&chars, from, to)
    }
}

/// The name that the path `fp` ends in, without its extension.
pub fn get_filestem(fp: &str) -> (stem: String)
    ensures
        stem@ == spec_filestem(fp@),
{
    let name = get_filename(fp);
    let chars = chars_of(name.as_str());
    let split = stem_end(&chars);
    assert(chars@.subrange(0, split as int) =~= chars@.take(split as int));
    string_of(&chars, 0, split)
}

/// The extension of the name that the path `fp` ends in, in small letters
/// and without its dot; the empty string where it has none.
pub fn get_extension(fp: &str) -> (extension: String)
    ensures
        extension@ == spec_extension(fp@),
{
    let name = get_filename(fp);
    let chars = chars_of(name.as_str());
    let split = stem_end(&chars);
    if split == chars.len() {
        assert(lowered(Seq::<char>::empty()) =~= Seq::<char>::empty());
        String::new()
    } else {
        assert(chars@.subrange(split + 1, chars.len() as int) =~= chars@.skip(split + 1));
        lowercase(&chars, split + 1, chars.len())
    }
}

/// The path `path` as seen from the directory `base`, with `/` between its
/// segments. `None` where `path` does not lie within `base`.
pub fn get_rel_path_string(path: &str, base: &str) -> (relative: Option<String>)
    ensures
        relative is Some <==> is_within(path@, base@),
        relative matches Some(r) ==> spec_relative(path@, base@) == Some(r@) && is_relative_path(
            r@,
        ),
{
    proof {
        if is_within(path@, base@) {
            lemma_relative_is_not_absolute(path@, base@);
        }
    }
    let chars = chars_of(path);
    let root = chars_of(base);
    let path_rooted = chars.len() > 0 && separates(chars[0]);
    let base_rooted = root.len() > 0 && separates(root[0]);
    if path_rooted != base_rooted {
        return None;
    }
    let parts = split(&chars);
    let above = split(&root);
    let ghost all = segments(path@);
    let ghost stem = segments(base@);
    if above.len() > parts.len() {
        return None;
    }
    let n: usize = above.len();
    let mut j: usize = 0;
    while j < n
        invariant
            j <= n,
            n == above.len(),
            n <= parts.len(),
            chars@ == path@,
            root@ == base@,
            all == texts_of(chars@, parts@),
            stem == texts_of(root@, above@),
            all == segments(path@),
            stem == segments(base@),
            ranges_fit(parts@, chars.len() as int),
            ranges_fit(above@, root.len() as int),
            forall|k: int| 0 <= k < j ==> all[k] == stem[k],
        decreases n - j,
    {
        let (from, to) = parts[j];
        let (start, end) = above[j];
        assert(parts@[j as int].1 <= chars.len());
        assert(above@[j as int].1 <= root.len());
        if !same_parts(&chars, from, to, &root, start, end) {
            assert(all[j as int] != stem[j as int]);
            assert(all.subrange(0, stem.len() as int)[j as int] == all[j as int]);
            return None;
        }
        j += 1;
    }
    assert(stem =~= all.subrange(0, stem.len() as int));
    let ghost rest = all.skip(n as int);
    let mut r = String::new();
    let mut k: usize = n;
    while k < parts.len()
        invariant
            n <= k <= parts.len(),
            all == texts_of(chars@, parts@),
            ranges_fit(parts@, chars.len() as int),
            rest == all.skip(n as int),
            r@ == joined(rest.take(k - n)),
        decreases parts.len() - k,
    {
        let (from, to) = parts[k];
        assert(parts@[k as int].1 <= chars.len());
        proof {
            assert(rest.take(k - n + 1).drop_last() =~= rest.take(k - n));
            assert(rest.take(k - n + 1).last() == chars@.subrange(from as int, to as int));
        }
        if k > n {
            r.push('/');
        }
        let ghost before = r@;
        let mut i: usize = from;
        while i < to
            invariant
                from <= i <= to <= chars.len(),
                r@ == before + chars@.subrange(from as int, i as int),
            decreases to - i,
        {
            r.push(chars[i]);
            i += 1;
            assert(r@ =~= before + chars@.subrange(from as int, i as int));
        }
        assert(r@ =~= joined(rest.take(k - n + 1)));
        k += 1;
    }
    assert(rest.take(rest.len() as int) =~= rest);
    Some(r)
}

/// A date and a time of day.
#[derive(Debug, Clone, Copy, PartialEq, Eq, Structural)]
pub struct DateTime {
    pub year: i32,
    pub month: u8,
    pub day: u8,
    pub hour: u8,
    pub minute: u8,
    pub second: u8,
}

/// `n` in decimal notation, with zeros in front until it has `width`
/// characters, its sign counted.
pub open spec fn zero_padded(n: int, width: nat) -> Seq<char> {
    padded(signed_decimal(n), width, '0')
}

/// `dt` as it is shown to a reader: day, month and year, then the time.
pub open spec fn pretty_datetime(dt: DateTime) -> Seq<char> {
    zero_padded(dt.day as int, 2) + "/"@ + zero_padded(dt.month as int, 2) + "/"@ + zero_padded(
        dt.year as int,
        4,
    ) + " - "@ + zero_padded(dt.hour as int, 2) + ":"@ + zero_padded(dt.minute as int, 2) + ":"@
        + zero_padded(dt.second as int, 2)
}

/// `dt` as it stands in the name of a file: year, month and day, then the
/// time, so that names sort by date.
pub open spec fn path_datetime(dt: DateTime) -> Seq<char> {
    zero_padded(dt.year as int, 4) + "_"@ + zero_padded(dt.month as int, 2) + "_"@ + zero_padded(
        dt.day as int,
        2,
    ) + "-"@ + zero_padded(dt.hour as int, 2) + "_"@ + zero_padded(dt.minute as int, 2) + "_"@
        + zero_padded(dt.second as int, 2)
}

/// `n` in decimal notation, with zeros in front until it has `width`
/// characters.
pub fn zero_pad(n: i64, width: usize) -> (text: String)
    ensures
        text@ == zero_padded(n as int, width as nat),
{
    let digits = to_signed_decimal(n);
    pad_left(digits.as_str(), width, '0')
}

/// `dt` as it is shown to a reader.
pub fn datetime_to_pretty_string(dt: &DateTime) -> (text: String)
    ensures
        text@ == pretty_datetime(*dt),
{
    let mut text = zero_pad(dt.day as i64, 2);
    text.append("/");
    text.append(zero_pad(dt.month as i64, 2).as_str());
    text.append("/");
    text.append(zero_pad(dt.year as i64, 4).as_str());
    text.append(" - ");
    text.append(zero_pad(dt.hour as i64, 2).as_str());
    text.append(":");
    text.append(zero_pad(dt.minute as i64, 2).as_str());
    text.append(":");
    text.append(zero_pad(dt.second as i64, 2).as_str());
    assert(text@ =~= pretty_datetime(*dt));
    text
}

/// `dt` as it stands in the name of a file.
pub fn datetime_to_path_string(dt: &DateTime) -> (text: String)
    ensures
        text@ == path_datetime(*dt),
{
    let mut text = zero_pad(dt.year as i64, 4);
    text.append("_");
    text.append(zero_pad(dt.month as i64, 2).as_str());
    text.append("_");
    text.append(zero_pad(dt.day as i64, 2).as_str());
    text.append("-");
    text.append(zero_pad(dt.hour as i64, 2).as_str());
    text.append("_");
    text.append(zero_pad(dt.minute as i64, 2).as_str());
    text.append("_");
    text.append(zero_pad(dt.second as i64, 2).as_str());
    assert(text@ =~= path_datetime(*dt));
    text
}

} // verus!
