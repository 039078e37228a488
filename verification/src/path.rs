//! Paths as sequences of segments.
//!
//! A path is cut at each `/`. Empty pieces (a doubled or trailing slash) and
//! `.` pieces carry no meaning and are left out, except for a `.` that opens
//! a relative path. A leading `/` is a segment of its own, the root.

use vstd::prelude::*;
use crate::text::chars_of;
use crate::text::ends_with;
use crate::text::string_from_chars;

verus! {

pub const SEPARATOR: char = '/';

pub const DOT: char = '.';

/// The pieces of `s` between the occurrences of `sep`; there is one more
/// piece than there are occurrences.
pub open spec fn split(s: Seq<char>, sep: char) -> Seq<Seq<char>>
    decreases s.len(),
{
    if s.len() == 0 {
        seq![Seq::<char>::empty()]
    } else {
        let before = split(s.drop_last(), sep);
        if s.last() == sep {
            before.push(Seq::<char>::empty())
        } else {
            before.drop_last().push(before.last().push(s.last()))
        }
    }
}

/// Whether a piece stands for a segment: it is not empty, and it is not a
/// `.` unless it is the first piece.
pub open spec fn is_kept(piece: Seq<char>, first: bool) -> bool {
    piece.len() > 0 && (first || piece != seq![DOT])
}

/// The pieces that stand for segments, in order.
pub open spec fn kept(pieces: Seq<Seq<char>>) -> Seq<Seq<char>>
    decreases pieces.len(),
{
    if pieces.len() == 0 {
        Seq::<Seq<char>>::empty()
    } else {
        let before = kept(pieces.drop_last());
        if is_kept(pieces.last(), pieces.len() == 1) {
            before.push(pieces.last())
        } else {
            before
        }
    }
}

/// Whether `path` starts at the root.
pub open spec fn has_root(path: Seq<char>) -> bool {
    path.len() > 0 && path[0] == SEPARATOR
}

/// The segments of `path`.
pub open spec fn components(path: Seq<char>) -> Seq<Seq<char>> {
    if has_root(path) {
        seq![seq![SEPARATOR]] + kept(split(path, SEPARATOR))
    } else {
        kept(split(path, SEPARATOR))
    }
}

/// The characters of each segment of `segments`.
pub open spec fn segment_views(segments: Seq<Vec<char>>) -> Seq<Seq<char>> {
    segments.map_values(|segment: Vec<char>| segment@)
}

/// A split has at least one piece.
pub proof fn lemma_split_nonempty(s: Seq<char>, sep: char)
    ensures
        split(s, sep).len() >= 1,
    decreases s.len(),
{
    if s.len() > 0 {
        lemma_split_nonempty(s.drop_last(), sep);
    }
}

/// Cuts `path` into its segments.
pub fn path_components(path: &str) -> (segments: Vec<Vec<char>>)
    ensures
        segment_views(segments@) == components(path@),
{
    let chars = chars_of(path);
    let mut segments: Vec<Vec<char>> = Vec::new();
    if chars.len() > 0 && chars[0] == SEPARATOR {
        let mut root: Vec<char> = Vec::new();
        root.push(SEPARATOR);
        segments.push(root);
    }
    let ghost lead = segment_views(segments@);
    assert(lead =~= if has_root(path@) {
        seq![seq![SEPARATOR]]
    } else {
        Seq::<Seq<char>>::empty()
    });
    let mut current: Vec<char> = Vec::new();
    let mut first: bool = true;
    let mut i: usize = 0;
    while i < chars.len()
        invariant
            i <= chars.len(),
            chars@ == path@,
            split(chars@.take(i as int), SEPARATOR).len() >= 1,
            segment_views(segments@) == lead + kept(
                split(chars@.take(i as int), SEPARATOR).drop_last(),
            ),
            current@ == split(chars@.take(i as int), SEPARATOR).last(),
            first == (split(chars@.take(i as int), SEPARATOR).len() == 1),
        decreases chars.len() - i,
    {
        let ghost before = split(chars@.take(i as int), SEPARATOR);
        let ghost after = split(chars@.take(i + 1), SEPARATOR);
        let c: char = chars[i];
        assert(chars@.take(i + 1).drop_last() =~= chars@.take(i as int));
        if c == SEPARATOR {
            assert(after.drop_last() =~= before);
            if keep_piece(&current, first) {
                assert(segment_views(segments@.push(current)) =~= segment_views(segments@).push(
                    current@,
                ));
                segments.push(current);
            }
            current = Vec::new();
            first = false;
        } else {
            assert(after.drop_last() =~= before.drop_last());
            current.push(c);
        }
        i += 1;
    }
    assert(chars@.take(chars@.len() as int) =~= chars@);
    if keep_piece(&current, first) {
        assert(segment_views(segments@.push(current)) =~= segment_views(segments@).push(current@));
        segments.push(current);
    }
    segments
}

/// Whether the finished piece `piece` stands for a segment.
fn keep_piece(piece: &Vec<char>, first: bool) -> (keep: bool)
    ensures
        keep == is_kept(piece@, first),
{
    if piece.len() == 0 {
        false
    } else if first {
        true
    } else if piece.len() == 1 && piece[0] == DOT {
        assert(piece@ =~= seq![DOT]);
        false
    } else {
        assert(piece@.len() != 1 || piece@[0] != DOT);
        true
    }
}

/// Whether a segment names no file: the root, `.` or `..`.
pub open spec fn is_special(segment: Seq<char>) -> bool {
    segment == seq![SEPARATOR] || segment == seq![DOT] || segment == seq![DOT, DOT]
}

/// The last segment of `path`, where it names a file or a directory.
pub open spec fn file_name(path: Seq<char>) -> Option<Seq<char>> {
    let segments = components(path);
    if segments.len() == 0 || is_special(segments.last()) {
        None
    } else {
        Some(segments.last())
    }
}

/// The position of the last `.` of `name`, or -1 where it has none.
pub open spec fn last_dot(name: Seq<char>) -> int
    decreases name.len(),
{
    if name.len() == 0 {
        -1
    } else if name.last() == DOT {
        name.len() - 1
    } else {
        last_dot(name.drop_last())
    }
}

/// A file name without its extension: what stands before the last `.`,
/// unless that `.` opens the name.
pub open spec fn stem_of(name: Seq<char>) -> Seq<char> {
    if last_dot(name) <= 0 {
        name
    } else {
        name.take(last_dot(name))
    }
}

/// The stem of the file that `path` names.
pub open spec fn file_stem(path: Seq<char>) -> Option<Seq<char>> {
    match file_name(path) {
        Some(name) => Some(stem_of(name)),
        None => None,
    }
}

fn names_no_file(segment: &Vec<char>) -> (special: bool)
    ensures
        special == is_special(segment@),
{
    let n: usize = segment.len();
    if n == 1 && (segment[0] == SEPARATOR || segment[0] == DOT) {
        assert(segment@ =~= seq![segment@[0]]);
        true
    } else if n == 2 && segment[0] == DOT && segment[1] == DOT {
        assert(segment@ =~= seq![DOT, DOT]);
        true
    } else {
        assert(n != 1 || (segment@[0] != SEPARATOR && segment@[0] != DOT));
        assert(n != 2 || segment@[0] != DOT || segment@[1] != DOT);
        false
    }
}

/// The stem of the file name `name`.
pub fn name_stem(name: &Vec<char>) -> (stem: Vec<char>)
    ensures
        stem@ == stem_of(name@),
{
    let mut end: usize = name.len();
    assert(name@.take(name@.len() as int) =~= name@);
    while end > 0 && name[end - 1] != DOT
        invariant
            end <= name.len(),
            last_dot(name@) == last_dot(name@.take(end as int)),
        decreases end,
    {
        assert(name@.take(end as int).drop_last() =~= name@.take(end - 1));
        end -= 1;
    }
    // Here `end` is one past the last `.`, or 0 where the name has none.
    let mut stem: Vec<char> = Vec::new();
    let cut: usize = if end <= 1 {
        name.len()
    } else {
        end - 1
    };
    let mut i: usize = 0;
    while i < cut
        invariant
            i <= cut <= name.len(),
            stem@ == name@.take(i as int),
        decreases cut - i,
    {
        stem.push(name[i]);
        i += 1;
    }
    stem
}

/// The stem of the file that `path` names, if it names one.
pub fn path_file_stem(path: &str) -> (stem: Option<Vec<char>>)
    ensures
        match stem {
            Some(s) => file_stem(path@) == Some(s@),
            None => file_stem(path@) is None,
        },
{
    let segments = path_components(path);
    let n: usize = segments.len();
    if n == 0 {
        return None;
    }
    if names_no_file(&segments[n - 1]) {
        None
    } else {
        Some(name_stem(&segments[n - 1]))
    }
}

/// Whether `path` names a file with the extension `extension`: the file
/// name ends with a `.` and `extension`, and something stands before them.
/// Meant for an `extension` without a `.` of its own.
pub open spec fn has_extension(path: Seq<char>, extension: Seq<char>) -> bool {
    match file_name(path) {
        Some(name) => name.len() > extension.len() + 1 && (seq![DOT] + extension).is_suffix_of(
            name,
        ),
        None => false,
    }
}

/// Whether `path` names a file with the extension `extension`.
pub fn path_has_extension(path: &str, extension: &str) -> (found: bool)
    ensures
        found == has_extension(path@, extension@),
{
    let segments = path_components(path);
    let n: usize = segments.len();
    if n == 0 {
        return false;
    }
    if names_no_file(&segments[n - 1]) {
        return false;
    }
    let wanted = chars_of(extension);
    let mut ending: Vec<char> = Vec::new();
    ending.push(DOT);
    let mut i: usize = 0;
    while i < wanted.len()
        invariant
            i <= wanted.len(),
            ending@ == seq![DOT] + wanted@.take(i as int),
        decreases wanted.len() - i,
    {
        ending.push(wanted[i]);
        i += 1;
    }
    let name = &segments[n - 1];
    name.len() > ending.len() && ends_with(name, &ending)
}

/// The segments written out as one path: a `/` goes between two segments,
/// but none after the root.
pub open spec fn join(segments: Seq<Seq<char>>) -> Seq<char>
    decreases segments.len(),
{
    if segments.len() == 0 {
        Seq::<char>::empty()
    } else {
        let before = join(segments.drop_last());
        if before.len() == 0 || before.last() == SEPARATOR {
            before + segments.last()
        } else {
            before.push(SEPARATOR) + segments.last()
        }
    }
}

/// The one spelling that stands for all paths with the segments of `path`.
pub open spec fn canonical(path: Seq<char>) -> Seq<char> {
    join(components(path))
}

/// The canonical spelling of `path`: its segments, joined.
pub fn canonical_path(path: &str) -> (spelling: String)
    ensures
        spelling@ == canonical(path@),
{
    let segments = path_components(path);
    let mut out: Vec<char> = Vec::new();
    let mut i: usize = 0;
    while i < segments.len()
        invariant
            i <= segments.len(),
            out@ == join(segment_views(segments@).take(i as int)),
        decreases segments.len() - i,
    {
        assert(segment_views(segments@).take(i + 1).drop_last() =~= segment_views(segments@).take(
            i as int,
        ));
        let n: usize = out.len();
        if n > 0 && out[n - 1] != SEPARATOR {
            out.push(SEPARATOR);
        }
        let ghost opened = out@;
        let segment = &segments[i];
        let mut j: usize = 0;
        while j < segment.len()
            invariant
                j <= segment.len(),
                out@ == opened + segment@.take(j as int),
            decreases segment.len() - j,
        {
            out.push(segment[j]);
            j += 1;
        }
        i += 1;
    }
    assert(segment_views(segments@).take(segments@.len() as int) =~= segment_views(segments@));
    string_from_chars(&out)
}

/// Whether `piece` holds no separator.
pub open spec fn is_unbroken(piece: Seq<char>) -> bool {
    forall|i: int| 0 <= i < piece.len() ==> piece[i] != SEPARATOR
}

/// Whether `segments` can be the segments of a path: none is empty, only the
/// first may be the root or a `.`, and no other holds a separator.
pub open spec fn are_segments(segments: Seq<Seq<char>>) -> bool {
    &&& forall|i: int| 0 <= i < segments.len() ==> (#[trigger] segments[i]).len() > 0
    &&& forall|i: int|
        0 < i < segments.len() ==> is_unbroken(#[trigger] segments[i]) && segments[i] != seq![DOT]
    &&& segments.len() > 0 ==> is_unbroken(segments[0]) || segments[0] == seq![SEPARATOR]
}

/// No piece of a split holds the separator.
pub proof fn lemma_split_pieces_unbroken(s: Seq<char>)
    ensures
        forall|k: int|
            0 <= k < split(s, SEPARATOR).len() ==> is_unbroken(#[trigger] split(s, SEPARATOR)[k]),
    decreases s.len(),
{
    if s.len() > 0 {
        lemma_split_pieces_unbroken(s.drop_last());
        lemma_split_nonempty(s.drop_last(), SEPARATOR);
    }
}

/// Text without a separator, appended to `s`, extends the last piece of `s`.
pub proof fn lemma_split_append(s: Seq<char>, text: Seq<char>)
    requires
        is_unbroken(text),
    ensures
        split(s + text, SEPARATOR) == split(s, SEPARATOR).drop_last().push(
            split(s, SEPARATOR).last() + text,
        ),
    decreases text.len(),
{
    lemma_split_nonempty(s, SEPARATOR);
    let pieces = split(s, SEPARATOR);
    if text.len() > 0 {
        let shorter = text.drop_last();
        lemma_split_append(s, shorter);
        assert((s + text).drop_last() =~= s + shorter);
        let before = split(s + shorter, SEPARATOR);
        assert(before.last().push(text.last()) =~= pieces.last() + text);
    }
}

/// A path that starts at the root has an empty first piece and a second one.
pub proof fn lemma_split_rooted(s: Seq<char>)
    requires
        has_root(s),
    ensures
        split(s, SEPARATOR).len() >= 2,
        split(s, SEPARATOR)[0].len() == 0,
    decreases s.len(),
{
    if s.len() == 1 {
        assert(split(s.drop_last(), SEPARATOR).len() == 1);
    } else {
        lemma_split_rooted(s.drop_last());
    }
}

/// What is kept of unbroken pieces is unbroken and not empty, and a `.`
/// among it is the first piece.
pub proof fn lemma_kept_pieces(pieces: Seq<Seq<char>>)
    requires
        forall|j: int| 0 <= j < pieces.len() ==> is_unbroken(#[trigger] pieces[j]),
    ensures
        forall|k: int|
            0 <= k < kept(pieces).len() ==> (#[trigger] kept(pieces)[k]).len() > 0 && is_unbroken(
                kept(pieces)[k],
            ),
        forall|k: int| 0 < k < kept(pieces).len() ==> #[trigger] kept(pieces)[k] != seq![DOT],
        kept(pieces).len() > 0 && kept(pieces)[0] == seq![DOT] ==> pieces.len() > 0 && pieces[0]
            == seq![DOT],
    decreases pieces.len(),
{
    if pieces.len() > 0 {
        lemma_kept_pieces(pieces.drop_last());
    }
}

/// The segments of any path can be the segments of a path.
pub proof fn lemma_components_are_segments(path: Seq<char>)
    ensures
        are_segments(components(path)),
{
    let pieces = split(path, SEPARATOR);
    lemma_split_pieces_unbroken(path);
    lemma_kept_pieces(pieces);
    if has_root(path) {
        lemma_split_rooted(path);
    }
}

/// A text without characters has one piece, the empty one.
pub proof fn lemma_split_of_nothing()
    ensures
        split(Seq::<char>::empty(), SEPARATOR) == seq![Seq::<char>::empty()],
{
}

/// Of a single piece, the piece itself is kept unless it is empty.
pub proof fn lemma_kept_of_one(piece: Seq<char>)
    ensures
        kept(seq![piece]) == if piece.len() > 0 {
            seq![piece]
        } else {
            Seq::<Seq<char>>::empty()
        },
{
    assert(kept(seq![piece].drop_last()) =~= Seq::<Seq<char>>::empty());
}

/// Segments that are joined are not lost: the joined text is empty only
/// where there are no segments.
pub proof fn lemma_join_nonempty(segments: Seq<Seq<char>>)
    requires
        are_segments(segments),
        segments.len() > 0,
    ensures
        join(segments).len() > 0,
{
}

/// Joining segments and cutting the result gives the segments back.
pub proof fn lemma_join_then_cut(segments: Seq<Seq<char>>)
    requires
        are_segments(segments),
    ensures
        components(join(segments)) == segments,
    decreases segments.len(),
{
    let n = segments.len();
    if n == 0 {
        lemma_split_of_nothing();
        lemma_kept_of_one(Seq::<char>::empty());
    } else {
        let earlier = segments.drop_last();
        let x = segments.last();
        let t = join(earlier);
        assert(are_segments(earlier));
        lemma_join_then_cut(earlier);
        if n == 1 {
            if x == seq![SEPARATOR] {
                assert(x.drop_last() =~= Seq::<char>::empty());
                lemma_split_of_nothing();
                let pieces = split(x, SEPARATOR);
                assert(pieces.drop_last() =~= seq![Seq::<char>::empty()]);
                lemma_kept_of_one(Seq::<char>::empty());
            } else {
                lemma_split_append(Seq::<char>::empty(), x);
                lemma_split_of_nothing();
                assert(split(x, SEPARATOR) =~= seq![x]);
                lemma_kept_of_one(x);
            }
        } else {
            lemma_join_nonempty(earlier);
            lemma_split_nonempty(t, SEPARATOR);
            assert(is_unbroken(x) && x != seq![DOT]);
            let pieces = split(t, SEPARATOR);
            let joined = join(segments);
            let after = split(joined, SEPARATOR);
            assert(after.len() >= 2 && after.drop_last().len() >= 1 && kept(after) == kept(
                pieces,
            ).push(x)) by {
                if t.last() == SEPARATOR {
                    lemma_split_append(t, x);
                    lemma_split_nonempty(t.drop_last(), SEPARATOR);
                    assert(after.drop_last() =~= pieces.drop_last());
                } else {
                    lemma_split_append(t.push(SEPARATOR), x);
                    assert(t.push(SEPARATOR).drop_last() =~= t);
                    assert(after.drop_last() =~= pieces);
                }
            }
            assert(has_root(joined) == has_root(t));
            assert(components(joined) =~= components(t).push(x));
        }
    }
}

/// The canonical spelling of a path has the segments of the path, and
/// spelling it again changes nothing.
pub proof fn lemma_canonical_keeps_segments(path: Seq<char>)
    ensures
        components(canonical(path)) == components(path),
        canonical(canonical(path)) == canonical(path),
{
    lemma_components_are_segments(path);
    lemma_join_then_cut(components(path));
}

/// Two paths have one canonical spelling exactly when they have the same
/// segments.
pub proof fn lemma_one_spelling_per_segments(first: Seq<char>, second: Seq<char>)
    ensures
        canonical(first) == canonical(second) <==> components(first) == components(second),
{
    lemma_canonical_keeps_segments(first);
    lemma_canonical_keeps_segments(second);
}

} // verus!
