//! Resolved paths and what it means for one to lie inside another.
//!
//! A path is text whose segments are separated by `/`. A resolved path is
//! absolute, and none of its segments is empty, `.` or `..`: it is the form in
//! which the operating system reports a path once every link and every
//! relative segment has been followed. Containment is decided segment by
//! segment, never character by character, so `/a/bb` is not inside `/a/b`.

use vstd::prelude::*;
use vstd::string::*;
use crate::text::chars_of;

verus! {

/// The pieces of `text` that lie between separators, empty ones included.
/// There is always one piece more than there are separators.
pub open spec fn split(text: Seq<char>) -> Seq<Seq<char>>
    decreases text.len(),
{
    if text.len() == 0 {
        seq![Seq::<char>::empty()]
    } else {
        let before = split(text.drop_last());
        if text.last() == '/' {
            before.push(Seq::<char>::empty())
        } else {
            before.drop_last().push(before.last().push(text.last()))
        }
    }
}

/// The pieces written one after the other with a separator between each two.
pub open spec fn join(pieces: Seq<Seq<char>>) -> Seq<char>
    decreases pieces.len(),
{
    if pieces.len() == 0 {
        Seq::<char>::empty()
    } else if pieces.len() == 1 {
        pieces[0]
    } else {
        join(pieces.drop_last()).push('/') + pieces.last()
    }
}

/// A piece that names a file or a folder: not empty, not `.`, not `..`.
pub open spec fn is_name(piece: Seq<char>) -> bool {
    &&& piece.len() > 0
    &&& piece != seq!['.']
    &&& piece != seq!['.', '.']
}

/// Text in the form of a resolved path: it starts at the root, and it is
/// either the root alone or a chain of names.
pub open spec fn is_canonical(text: Seq<char>) -> bool {
    &&& text.len() > 0
    &&& text[0] == '/'
    &&& (text.len() == 1 || forall|i: int|
        1 <= i < split(text).len() ==> is_name(#[trigger] split(text)[i]))
}

/// The names along a resolved path, from the root down. The root has none.
pub open spec fn segments_of(text: Seq<char>) -> Seq<Seq<char>> {
    if text.len() <= 1 {
        Seq::<Seq<char>>::empty()
    } else {
        split(text).drop_first()
    }
}

/// `ancestor` is `path` or a folder above it: its names are the first names
/// of `path`.
pub open spec fn covers(ancestor: Seq<Seq<char>>, path: Seq<Seq<char>>) -> bool {
    &&& ancestor.len() <= path.len()
    &&& forall|i: int| 0 <= i < ancestor.len() ==> ancestor[i] == path[i]
}

/// What a vector of pieces holds, piece by piece.
pub open spec fn pieces_view(pieces: Seq<Vec<char>>) -> Seq<Seq<char>> {
    pieces.map_values(|piece: Vec<char>| piece@)
}

/// Splitting never yields nothing.
pub proof fn lemma_split_nonempty(text: Seq<char>)
    ensures
        split(text).len() >= 1,
    decreases text.len(),
{
    if text.len() > 0 {
        lemma_split_nonempty(text.drop_last());
    }
}

/// Cuts `chars` at every separator.
pub fn split_pieces(chars: &Vec<char>) -> (pieces: Vec<Vec<char>>)
    ensures
        pieces_view(pieces@) == split(chars@),
{
    let mut done: Vec<Vec<char>> = Vec::new();
    let mut current: Vec<char> = Vec::new();
    let mut i: usize = 0;
    while i < chars.len()
        invariant
            i <= chars.len(),
            pieces_view(done@).push(current@) == split(chars@.take(i as int)),
        decreases chars.len() - i,
    {
        let c = chars[i];
        proof {
            let upto = chars@.take(i as int + 1);
            assert(upto.drop_last() == chars@.take(i as int));
            assert(upto.last() == c);
            lemma_split_nonempty(chars@.take(i as int));
        }
        if c == '/' {
            let ghost before = pieces_view(done@).push(current@);
            done.push(current);
            current = Vec::new();
            assert(pieces_view(done@) == before);
        } else {
            let ghost before = pieces_view(done@).push(current@);
            current.push(c);
            assert(pieces_view(done@).push(current@) == before.drop_last().push(
                before.last().push(c),
            ));
        }
        i += 1;
    }
    assert(chars@.take(i as int) == chars@);
    let ghost before = pieces_view(done@).push(current@);
    done.push(current);
    assert(pieces_view(done@) == before);
    done
}

/// Joining what was split gives the text back.
pub proof fn lemma_join_split(text: Seq<char>)
    ensures
        join(split(text)) == text,
    decreases text.len(),
{
    if text.len() > 0 {
        let before = split(text.drop_last());
        lemma_split_nonempty(text.drop_last());
        lemma_join_split(text.drop_last());
        if text.last() == '/' {
            assert(before.push(Seq::<char>::empty()).drop_last() == before);
            assert(join(before).push('/') + Seq::<char>::empty() == text);
        } else {
            let grown = before.drop_last().push(before.last().push(text.last()));
            if before.len() == 1 {
                assert(grown[0] == text);
            } else {
                assert(grown.drop_last() == before.drop_last());
                assert(join(before.drop_last()).push('/') + before.last().push(text.last())
                    == (join(before.drop_last()).push('/') + before.last()).push(text.last()));
                assert(join(before).push(text.last()) == text);
            }
        }
    }
}

/// Text that starts with a separator splits into an empty first piece and
/// at least one more.
pub proof fn lemma_split_rooted(text: Seq<char>)
    requires
        text.len() > 0,
        text[0] == '/',
    ensures
        split(text).len() >= 2,
        split(text)[0].len() == 0,
    decreases text.len(),
{
    if text.len() > 1 {
        lemma_split_rooted(text.drop_last());
    } else {
        assert(split(text.drop_last()) == seq![Seq::<char>::empty()]);
    }
}

/// Splitting two texts written with a separator between them gives the
/// pieces of the first, then the pieces of the second.
pub proof fn lemma_split_append(head: Seq<char>, tail: Seq<char>)
    ensures
        split(head.push('/') + tail) == split(head) + split(tail),
    decreases tail.len(),
{
    let whole = head.push('/') + tail;
    lemma_split_nonempty(head);
    if tail.len() == 0 {
        assert(whole == head.push('/'));
        assert(whole.drop_last() == head);
        assert(split(head).push(Seq::<char>::empty()) == split(head) + split(tail));
    } else {
        assert(whole.drop_last() == head.push('/') + tail.drop_last());
        lemma_split_append(head, tail.drop_last());
        lemma_split_nonempty(tail.drop_last());
        let before = split(tail.drop_last());
        if tail.last() == '/' {
            assert((split(head) + before).push(Seq::<char>::empty()) == split(head) + split(
                tail,
            ));
        } else {
            assert((split(head) + before).drop_last() == split(head) + before.drop_last());
            assert((split(head) + before.drop_last()).push(before.last().push(tail.last()))
                == split(head) + split(tail));
        }
    }
}

/// Joining two runs of pieces is joining each and writing a separator
/// between them.
pub proof fn lemma_join_append(first: Seq<Seq<char>>, second: Seq<Seq<char>>)
    requires
        first.len() >= 1,
        second.len() >= 1,
    ensures
        join(first + second) == join(first).push('/') + join(second),
    decreases second.len(),
{
    let all = first + second;
    if second.len() == 1 {
        assert(all.drop_last() == first);
    } else {
        assert(all.drop_last() == first + second.drop_last());
        lemma_join_append(first, second.drop_last());
        assert((join(first).push('/') + join(second.drop_last())).push('/') + second.last()
            == join(first).push('/') + (join(second.drop_last()).push('/') + second.last()));
    }
}

/// The root contains every resolved path.
pub proof fn law_root_contains_all(root: Seq<char>, path: Seq<char>)
    requires
        root.len() == 1,
    ensures
        covers(segments_of(root), segments_of(path)),
{
}

/// Containment, read off the text. A resolved path lies inside a folder
/// other than the root exactly when it is that folder or its text is the
/// folder's text, a separator, and more. Sharing the folder's text as a
/// prefix is not enough: the separator has to follow.
pub proof fn law_containment_by_text(folder: Seq<char>, path: Seq<char>)
    requires
        is_canonical(folder),
        is_canonical(path),
        folder.len() > 1,
    ensures
        covers(segments_of(folder), segments_of(path)) <==> (path == folder || (path.len()
            > folder.len() && path.take(folder.len() as int) == folder && path[folder.len() as int]
            == '/')),
{
    lemma_split_rooted(folder);
    lemma_split_rooted(path);
    lemma_join_split(folder);
    lemma_join_split(path);
    let above = segments_of(folder);
    let below = segments_of(path);
    if covers(above, below) {
        assert(path.len() > 1) by {
            if path.len() == 1 {
                assert(below.len() == 0);
                assert(above.len() >= 1);
            }
        }
        let rest = split(path).skip(split(folder).len() as int);
        assert(split(path) == split(folder) + rest) by {
            assert forall|i: int| 0 <= i < split(folder).len() implies split(path)[i] == split(
                folder,
            )[i] by {
                if i > 0 {
                    assert(above[i - 1] == below[i - 1]);
                } else {
                    assert(split(path)[0] =~= split(folder)[0]);
                }
            }
        }
        if rest.len() == 0 {
            assert(split(path) == split(folder));
        } else {
            lemma_join_append(split(folder), rest);
            assert(path.take(folder.len() as int) == folder);
        }
    }
    if path.len() > folder.len() && path.take(folder.len() as int) == folder && path[folder.len() as int]
        == '/' {
        let tail = path.skip(folder.len() as int + 1);
        assert(path == folder.push('/') + tail);
        lemma_split_append(folder, tail);
        assert(below == above + split(tail));
    }
}

/// A path that only shares a folder's text as a prefix, with something
/// other than a separator after it, is not inside that folder.
pub proof fn law_shared_prefix_is_not_containment(folder: Seq<char>, path: Seq<char>)
    requires
        is_canonical(folder),
        is_canonical(path),
        folder.len() > 1,
        path.len() > folder.len(),
        path.take(folder.len() as int) == folder,
        path[folder.len() as int] != '/',
    ensures
        !covers(segments_of(folder), segments_of(path)),
{
    law_containment_by_text(folder, path);
}

/// Whether two vectors hold the same characters.
pub fn same_chars(a: &Vec<char>, b: &Vec<char>) -> (same: bool)
    ensures
        same == (a@ == b@),
{
    if a.len() != b.len() {
        return false;
    }
    let mut i: usize = 0;
    while i < a.len()
        invariant
            a.len() == b.len(),
            i <= a.len(),
            a@.take(i as int) == b@.take(i as int),
        decreases a.len() - i,
    {
        if a[i] != b[i] {
            return false;
        }
        assert(a@.take(i as int + 1) == a@.take(i as int).push(a@[i as int]));
        assert(b@.take(i as int + 1) == b@.take(i as int).push(b@[i as int]));
        i += 1;
    }
    assert(a@.take(i as int) == a@);
    assert(b@.take(i as int) == b@);
    true
}

/// Whether `piece` names a file or a folder.
pub fn piece_is_name(piece: &Vec<char>) -> (named: bool)
    ensures
        named == is_name(piece@),
{
    if piece.len() == 0 {
        false
    } else if piece.len() == 1 {
        proof {
            assert(piece@ == seq!['.'] <==> piece@[0] == '.') by {
                if piece@[0] == '.' {
                    assert(piece@ =~= seq!['.']);
                }
            }
        }
        piece[0] != '.'
    } else if piece.len() == 2 {
        proof {
            assert(piece@ == seq!['.', '.'] <==> piece@[0] == '.' && piece@[1] == '.') by {
                if piece@[0] == '.' && piece@[1] == '.' {
                    assert(piece@ =~= seq!['.', '.']);
                }
            }
        }
        !(piece[0] == '.' && piece[1] == '.')
    } else {
        true
    }
}

/// A path in resolved form, kept as its text and as its names.
pub struct CanonicalPath {
    text: String,
    segments: Vec<Vec<char>>,
}

impl View for CanonicalPath {
    type V = Seq<Seq<char>>;

    /// The names along the path, from the root down.
    closed spec fn view(&self) -> Seq<Seq<char>> {
        pieces_view(self.segments@)
    }
}

impl CanonicalPath {
    /// The path as text, as it was handed to `parse`.
    pub closed spec fn text(&self) -> Seq<char> {
        self.text@
    }

    #[verifier::type_invariant]
    spec fn well_formed(&self) -> bool {
        &&& is_canonical(self.text@)
        &&& pieces_view(self.segments@) == segments_of(self.text@)
    }

    /// Reads `text` as a resolved path. Text in any other form is refused:
    /// a relative path, one with an empty segment (a doubled or a trailing
    /// separator), one with `.` or `..` in it.
    pub fn parse(text: &str) -> (parsed: Option<CanonicalPath>)
        ensures
            parsed is Some <==> is_canonical(text@),
            parsed matches Some(path) ==> path.text() == text@ && path@ == segments_of(text@),
    {
        let chars = chars_of(text);
        if chars.len() == 0 || chars[0] != '/' {
            return None;
        }
        if chars.len() == 1 {
            let segments: Vec<Vec<char>> = Vec::new();
            assert(pieces_view(segments@) == Seq::<Seq<char>>::empty());
            return Some(CanonicalPath { text: text.to_owned(), segments });
        }
        let mut pieces = split_pieces(&chars);
        proof {
            lemma_split_nonempty(chars@);
        }
        let mut i: usize = 1;
        while i < pieces.len()
            invariant
                1 <= i <= pieces.len(),
                chars@ == text@,
                chars.len() > 1,
                pieces_view(pieces@) == split(chars@),
                forall|j: int| 1 <= j < i ==> is_name(#[trigger] split(chars@)[j]),
            decreases pieces.len() - i,
        {
            assert(pieces_view(pieces@)[i as int] == pieces@[i as int]@);
            if !piece_is_name(&pieces[i]) {
                assert(!is_name(split(text@)[i as int]));
                return None;
            }
            i += 1;
        }
        let ghost all = pieces@;
        pieces.remove(0);
        assert(pieces_view(pieces@) == pieces_view(all).drop_first());
        Some(CanonicalPath { text: text.to_owned(), segments: pieces })
    }

    /// The path as text.
    pub fn as_str(&self) -> (text: &str)
        ensures
            text@ == self.text(),
            is_canonical(text@),
            self@ == segments_of(text@),
    {
        proof {
            use_type_invariant(self);
        }
        self.text.as_str()
    }

    /// Whether this path is `ancestor` or lies below it.
    pub fn is_within(&self, ancestor: &CanonicalPath) -> (within: bool)
        ensures
            within == covers(ancestor@, self@),
    {
        if ancestor.segments.len() > self.segments.len() {
            return false;
        }
        let mut i: usize = 0;
        while i < ancestor.segments.len()
            invariant
                i <= ancestor.segments.len() <= self.segments.len(),
                forall|j: int| 0 <= j < i ==> ancestor@[j] == self@[j],
            decreases ancestor.segments.len() - i,
        {
            assert(ancestor@[i as int] == ancestor.segments@[i as int]@);
            assert(self@[i as int] == self.segments@[i as int]@);
            if !same_chars(&ancestor.segments[i], &self.segments[i]) {
                return false;
            }
            i += 1;
        }
        true
    }
}

/// `text` without what stands at its end and names nothing: separators,
/// and `.` pieces that follow a separator.
pub open spec fn trimmed(text: Seq<char>) -> Seq<char>
    decreases text.len(),
{
    if text.len() == 0 {
        text
    } else if text.last() == '/' {
        trimmed(text.drop_last())
    } else if text.last() == '.' && text.len() >= 2 && text[text.len() - 2] == '/' {
        trimmed(text.drop_last())
    } else {
        text
    }
}

/// Where the last piece of `text` begins: behind its last separator, or at
/// the start where it has none.
pub open spec fn last_piece_start(text: Seq<char>) -> int
    decreases text.len(),
{
    if text.len() == 0 || text.last() == '/' {
        text.len() as int
    } else {
        last_piece_start(text.drop_last())
    }
}

/// The folder that a path as the user wrote it lies in: the path without
/// its last piece. The root and the empty path have none. A path of one
/// piece lies in the empty path, which stands for the working folder.
pub open spec fn parent_of(text: Seq<char>) -> Option<Seq<char>> {
    let whole = trimmed(text);
    if whole.len() == 0 {
        None
    } else {
        let above = trimmed(whole.take(last_piece_start(whole)));
        if above.len() == 0 && whole[0] == '/' {
            Some(seq!['/'])
        } else {
            Some(above)
        }
    }
}

/// The last piece of a path as the user wrote it, where that piece is a
/// name.
pub open spec fn file_name_of(text: Seq<char>) -> Option<Seq<char>> {
    let whole = trimmed(text);
    let name = whole.skip(last_piece_start(whole));
    if whole.len() > 0 && is_name(name) {
        Some(name)
    } else {
        None
    }
}

/// Where the last `.` of `name` stands, or -1 where it has none.
pub open spec fn last_dot(name: Seq<char>) -> int
    decreases name.len(),
{
    if name.len() == 0 {
        -1
    } else if name.last() == '.' {
        name.len() - 1
    } else {
        last_dot(name.drop_last())
    }
}

/// What follows the last `.` of a file's name. A name without a `.`, or
/// with its only `.` in front, has no extension.
pub open spec fn extension_of(name: Seq<char>) -> Option<Seq<char>> {
    if last_dot(name) <= 0 {
        None
    } else {
        Some(name.skip(last_dot(name) + 1))
    }
}

/// The extension of the file that a path names, empty where there is none.
pub open spec fn extension_of_path(text: Seq<char>) -> Seq<char> {
    match file_name_of(text) {
        Some(name) => match extension_of(name) {
            Some(extension) => extension,
            None => Seq::<char>::empty(),
        },
        None => Seq::<char>::empty(),
    }
}

/// The last piece of a text is what stands behind its last separator, and
/// the pieces before it are those of the text in front of that separator.
pub proof fn lemma_last_piece(text: Seq<char>)
    ensures
        0 <= last_piece_start(text) <= text.len(),
        split(text).last() == text.skip(last_piece_start(text)),
        last_piece_start(text) == 0 ==> split(text).len() == 1,
        last_piece_start(text) > 0 ==> text[last_piece_start(text) - 1] == '/' && split(
            text.take(last_piece_start(text) - 1),
        ) == split(text).drop_last(),
    decreases text.len(),
{
    if text.len() == 0 {
        assert(text.skip(0) == Seq::<char>::empty());
    } else {
        let before = text.drop_last();
        lemma_last_piece(before);
        lemma_split_nonempty(before);
        if text.last() == '/' {
            assert(text.skip(text.len() as int) == Seq::<char>::empty());
            assert(text.take(text.len() - 1) == before);
            assert(split(before).push(Seq::<char>::empty()).drop_last() == split(before));
        } else {
            let start = last_piece_start(before);
            assert(before.skip(start).push(text.last()) == text.skip(start));
            assert(split(before).drop_last().push(split(before).last().push(text.last())).drop_last()
                == split(before).drop_last());
            if start > 0 {
                assert(text.take(start - 1) == before.take(start - 1));
            }
        }
    }
}

/// A resolved path below the root has nothing at its end that names
/// nothing.
pub proof fn lemma_resolved_is_trimmed(text: Seq<char>)
    requires
        is_canonical(text),
        text.len() > 1,
    ensures
        trimmed(text) == text,
{
    lemma_split_rooted(text);
    lemma_last_piece(text);
    let piece = split(text)[split(text).len() - 1];
    assert(is_name(piece));
    if text.last() == '/' {
        assert(split(text).last().len() == 0);
    } else if text.last() == '.' && text[text.len() - 2] == '/' {
        let before = text.drop_last();
        assert(before.last() == '/');
        assert(last_piece_start(before) == before.len());
        assert(last_piece_start(text) == text.len() - 1);
        assert(piece =~= seq!['.']);
    }
}

/// The folder that a resolved path lies in is the resolved path of the
/// names above its last: what `parent_of` gives for a resolved path below
/// the root is again a resolved path, with the same names but the last.
pub proof fn law_parent_of_resolved(text: Seq<char>)
    requires
        is_canonical(text),
        text.len() > 1,
    ensures
        parent_of(text) is Some,
        is_canonical(parent_of(text)->0),
        segments_of(parent_of(text)->0) == segments_of(text).drop_last(),
{
    lemma_resolved_is_trimmed(text);
    lemma_split_rooted(text);
    lemma_last_piece(text);
    let start = last_piece_start(text);
    let head = text.take(start);
    let above = text.take(start - 1);
    assert(head.drop_last() == above);
    assert(trimmed(head) == trimmed(above));
    lemma_join_split(above);
    lemma_split_nonempty(above);
    if split(text).len() == 2 {
        assert(split(above) == seq![split(text)[0]]);
        assert(above.len() == 0);
        assert(segments_of(seq!['/']) == segments_of(text).drop_last());
    } else {
        assert(above.len() > 1) by {
            if above.len() == 0 {
                assert(split(above).len() == 1);
            } else if above.len() == 1 {
                assert(above.drop_last().len() == 0);
                assert(split(above.drop_last()).len() == 1);
            }
        }
        assert(above[0] == text[0]);
        assert forall|i: int| 1 <= i < split(above).len() implies is_name(
            #[trigger] split(above)[i],
        ) by {
            assert(split(above)[i] == split(text)[i]);
        }
        lemma_resolved_is_trimmed(above);
        assert(segments_of(above) == segments_of(text).drop_last());
    }
}

/// How much of the first `length` characters is left once what names
/// nothing is taken from their end.
fn trimmed_length(chars: &Vec<char>, length: usize) -> (kept: usize)
    requires
        length <= chars.len(),
    ensures
        kept <= length,
        chars@.take(kept as int) == trimmed(chars@.take(length as int)),
{
    let mut kept = length;
    while kept > 0 && (chars[kept - 1] == '/' || (chars[kept - 1] == '.' && kept >= 2 && chars[kept
        - 2] == '/'))
        invariant
            kept <= length <= chars.len(),
            trimmed(chars@.take(kept as int)) == trimmed(chars@.take(length as int)),
        decreases kept,
    {
        assert(chars@.take(kept as int).drop_last() == chars@.take(kept as int - 1));
        kept -= 1;
    }
    kept
}

/// Where the last piece of the first `length` characters begins.
fn piece_start(chars: &Vec<char>, length: usize) -> (start: usize)
    requires
        length <= chars.len(),
    ensures
        start <= length,
        start == last_piece_start(chars@.take(length as int)),
{
    let mut start = length;
    while start > 0 && chars[start - 1] != '/'
        invariant
            start <= length <= chars.len(),
            last_piece_start(chars@.take(start as int)) == last_piece_start(
                chars@.take(length as int),
            ),
        decreases start,
    {
        assert(chars@.take(start as int).drop_last() == chars@.take(start as int - 1));
        start -= 1;
    }
    start
}

/// The folder that `path` lies in, as `parent_of` says.
pub fn parent(path: &str) -> (above: Option<String>)
    ensures
        match above {
            Some(text) => parent_of(path@) == Some(text@),
            None => parent_of(path@) is None,
        },
{
    let chars = chars_of(path);
    assert(chars@.take(chars.len() as int) == chars@);
    let whole = trimmed_length(&chars, chars.len());
    if whole == 0 {
        return None;
    }
    let start = piece_start(&chars, whole);
    let kept = trimmed_length(&chars, start);
    proof {
        assert(chars@.take(whole as int).take(start as int) == chars@.take(start as int));
    }
    if kept == 0 && chars[0] == '/' {
        let root = path.substring_char(0, 1);
        assert(root@ == seq!['/']);
        Some(root.to_owned())
    } else {
        let above = path.substring_char(0, kept);
        assert(above@ == chars@.take(kept as int));
        Some(above.to_owned())
    }
}

/// The name of the file that `path` names, as `file_name_of` says.
pub fn file_name(path: &str) -> (name: Option<String>)
    ensures
        match name {
            Some(text) => file_name_of(path@) == Some(text@),
            None => file_name_of(path@) is None,
        },
{
    let chars = chars_of(path);
    assert(chars@.take(chars.len() as int) == chars@);
    let whole = trimmed_length(&chars, chars.len());
    if whole == 0 {
        return None;
    }
    let start = piece_start(&chars, whole);
    let name = path.substring_char(start, whole);
    assert(name@ == chars@.take(whole as int).skip(start as int));
    let piece = chars_of(name);
    if piece_is_name(&piece) {
        Some(name.to_owned())
    } else {
        None
    }
}

/// The extension of the file that `path` names, as `extension_of_path`
/// says.
pub fn extension(path: &str) -> (found: String)
    ensures
        found@ == extension_of_path(path@),
{
    match file_name(path) {
        None => String::new(),
        Some(name) => {
            let chars = chars_of(name.as_str());
            let mut dot = chars.len();
            assert(chars@.take(dot as int) == chars@);
            while dot > 0 && chars[dot - 1] != '.'
                invariant
                    dot <= chars.len(),
                    last_dot(chars@.take(dot as int)) == last_dot(chars@),
                decreases dot,
            {
                assert(chars@.take(dot as int).drop_last() == chars@.take(dot as int - 1));
                dot -= 1;
            }
            proof {
                if dot > 0 {
                    assert(chars@.take(dot as int).last() == '.');
                }
            }
            if dot <= 1 {
                String::new()
            } else {
                let found = name.as_str().substring_char(dot, chars.len());
                assert(found@ == chars@.skip(dot as int));
                found.to_owned()
            }
        },
    }
}

} // verus!
