//! Paths as lists of components, and the part of a path that lies below a
//! directory.
use vstd::prelude::*;

verus! {

/// Why a path has no part below a directory.
#[derive(Debug, PartialEq, Eq, Clone, Copy, Structural)]
pub enum LocalPathError {
    PathNotInDir,
}

impl LocalPathError {
    /// The message that describes the error.
    pub fn message(&self) -> (text: &'static str)
        ensures
            text@ == "path was not in specified directory"@,
    {
        "path was not in specified directory"
    }
}

/// The texts of a list of strings, in order.
pub open spec fn texts(parts: Seq<String>) -> Seq<Seq<char>> {
    Seq::new(parts.len(), |i: int| parts[i]@)
}

/// A path: whether it starts at the root, and its components from the
/// outermost inwards.
#[derive(Debug)]
pub struct HatPath {
    pub rooted: bool,
    pub parts: Vec<String>,
}

/// A path as a mathematical value.
pub struct PathView {
    pub rooted: bool,
    pub parts: Seq<Seq<char>>,
}

impl View for HatPath {
    type V = PathView;

    open spec fn view(&self) -> PathView {
        PathView { rooted: self.rooted, parts: texts(self.parts@) }
    }
}

/// The components joined by `/`.
pub open spec fn joined_parts(parts: Seq<Seq<char>>) -> Seq<char>
    decreases parts.len(),
{
    if parts.len() == 0 {
        Seq::empty()
    } else if parts.len() == 1 {
        parts[0]
    } else {
        joined_parts(parts.drop_last()) + seq!['/'] + parts.last()
    }
}

/// A path written out: its components joined by `/`, after a `/` if it
/// starts at the root.
pub open spec fn path_text(path: PathView) -> Seq<char> {
    if path.rooted {
        seq!['/'] + joined_parts(path.parts)
    } else {
        joined_parts(path.parts)
    }
}

/// A path with `suffix` added to the end of its text: to its last
/// component, or as its only component where it has none.
pub open spec fn suffixed(path: PathView, suffix: Seq<char>) -> PathView {
    if path.parts.len() == 0 {
        PathView { rooted: path.rooted, parts: seq![suffix] }
    } else {
        PathView {
            rooted: path.rooted,
            parts: path.parts.drop_last().push(path.parts.last() + suffix),
        }
    }
}

/// The pieces that the slashes of a text part it into, empty pieces among
/// them: a text without a slash is one piece.
pub open spec fn segments(text: Seq<char>) -> Seq<Seq<char>>
    decreases text.len(),
{
    if text.len() == 0 {
        seq![Seq::<char>::empty()]
    } else {
        let before = segments(text.drop_last());
        if text.last() == '/' {
            before.push(Seq::<char>::empty())
        } else {
            before.drop_last().push(before.last().push(text.last()))
        }
    }
}

/// Whether the piece at place `at` of a text is a component of the path
/// that the text names: it is not empty, and it is not a single full stop
/// unless it is the first piece.
pub open spec fn is_component(segment: Seq<char>, at: int) -> bool {
    segment.len() > 0 && !(segment == seq!['.'] && at > 0)
}

/// The pieces that are components, in order.
pub open spec fn components(segments: Seq<Seq<char>>) -> Seq<Seq<char>>
    decreases segments.len(),
{
    if segments.len() == 0 {
        Seq::empty()
    } else {
        let before = components(segments.drop_last());
        if is_component(segments.last(), segments.len() - 1) {
            before.push(segments.last())
        } else {
            before
        }
    }
}

/// The path that a text names. It starts at the root if the text starts
/// with a slash, and its components are the pieces between the slashes,
/// without the empty ones and without single full stops after the first
/// piece.
pub open spec fn parsed_path(text: Seq<char>) -> PathView {
    PathView { rooted: text.len() > 0 && text[0] == '/', parts: components(segments(text)) }
}

/// A text has at least one piece.
pub proof fn lemma_segments_nonempty(text: Seq<char>)
    ensures
        segments(text).len() >= 1,
    decreases text.len(),
{
    if text.len() > 0 {
        lemma_segments_nonempty(text.drop_last());
    }
}

/// Whether a text holds no slash.
pub open spec fn slash_free(text: Seq<char>) -> bool {
    forall|i: int| 0 <= i < text.len() ==> text[i] != '/'
}

/// Whether a path is written out and read again without change: every
/// component has a character and no slash, and none is a single full stop,
/// but for the first component of a path that does not start at the root.
pub open spec fn is_plain(path: PathView) -> bool {
    forall|i: int|
        0 <= i < path.parts.len() ==> is_component(
            #[trigger] path.parts[i],
            if path.rooted {
                i + 1
            } else {
                i
            },
        ) && slash_free(path.parts[i])
}

/// A text without a slash after a text lengthens the last piece of it.
pub proof fn lemma_segments_append(text: Seq<char>, tail: Seq<char>)
    requires
        slash_free(tail),
    ensures
        segments(text + tail) == segments(text).drop_last().push(segments(text).last() + tail),
    decreases tail.len(),
{
    lemma_segments_nonempty(text);
    let pieces = segments(text);
    if tail.len() == 0 {
        assert(text + tail =~= text);
        assert(pieces.last() + tail =~= pieces.last());
        assert(pieces.drop_last().push(pieces.last()) =~= pieces);
    } else {
        let shorter = tail.drop_last();
        assert forall|i: int| 0 <= i < shorter.len() implies shorter[i] != '/' by {
            assert(shorter[i] == tail[i]);
        }
        lemma_segments_append(text, shorter);
        assert((text + tail).drop_last() =~= text + shorter);
        assert((text + tail).last() == tail.last());
        assert(tail[tail.len() - 1] != '/');
        let before = segments(text + shorter);
        assert(before.drop_last() =~= pieces.drop_last());
        assert(before.last().push(tail.last()) =~= pieces.last() + tail);
    }
}

/// The pieces of the components joined by slashes are the components, where
/// there is a component and none holds a slash.
pub proof fn lemma_segments_of_joined(parts: Seq<Seq<char>>)
    requires
        parts.len() > 0,
        forall|i: int| 0 <= i < parts.len() ==> slash_free(#[trigger] parts[i]),
    ensures
        segments(joined_parts(parts)) == parts,
    decreases parts.len(),
{
    let empty = Seq::<char>::empty();
    if parts.len() == 1 {
        lemma_segments_append(empty, parts[0]);
        assert(empty + parts[0] =~= parts[0]);
        assert(segments(empty) =~= seq![empty]);
        assert(seq![empty].drop_last().push(empty + parts[0]) =~= parts);
    } else {
        let before = parts.drop_last();
        assert forall|i: int| 0 <= i < before.len() implies slash_free(#[trigger] before[i]) by {
            assert(before[i] == parts[i]);
        }
        lemma_segments_of_joined(before);
        let head = joined_parts(before) + seq!['/'];
        assert(head.drop_last() =~= joined_parts(before));
        assert(head.last() == '/');
        assert(segments(head) == before.push(empty));
        assert(parts.last() == parts[parts.len() - 1]);
        lemma_segments_append(head, parts.last());
        assert(before.push(empty).drop_last() =~= before);
        assert(empty + parts.last() =~= parts.last());
        assert(before.push(parts.last()) =~= parts);
    }
}

/// A slash before a text puts an empty piece before its pieces.
pub proof fn lemma_segments_after_slash(text: Seq<char>)
    ensures
        segments(seq!['/'] + text) == seq![Seq::<char>::empty()] + segments(text),
    decreases text.len(),
{
    let empty = Seq::<char>::empty();
    let slash = seq!['/'];
    lemma_segments_nonempty(text);
    if text.len() == 0 {
        assert(slash + text =~= slash);
        assert(slash.drop_last() =~= empty);
        assert(segments(empty) =~= seq![empty]);
        assert(segments(slash) =~= seq![empty, empty]);
        assert(seq![empty] + segments(text) =~= seq![empty, empty]);
    } else {
        lemma_segments_after_slash(text.drop_last());
        lemma_segments_nonempty(text.drop_last());
        assert((slash + text).drop_last() =~= slash + text.drop_last());
        assert((slash + text).last() == text.last());
        let shorter = segments(text.drop_last());
        let lead = seq![empty] + shorter;
        if text.last() == '/' {
            assert(lead.push(empty) =~= seq![empty] + shorter.push(empty));
        } else {
            assert(lead.drop_last() =~= seq![empty] + shorter.drop_last());
            assert(lead.last() == shorter.last());
            assert(lead.drop_last().push(lead.last().push(text.last())) =~= seq![empty]
                + shorter.drop_last().push(shorter.last().push(text.last())));
        }
    }
}

/// Among pieces that are all components at their places, counted from
/// `shift`, every piece is kept.
proof fn lemma_components_keep(pieces: Seq<Seq<char>>, lead: Seq<Seq<char>>)
    requires
        forall|i: int|
            0 <= i < pieces.len() ==> is_component(#[trigger] pieces[i], lead.len() + i),
    ensures
        components(lead + pieces) == components(lead) + pieces,
    decreases pieces.len(),
{
    if pieces.len() == 0 {
        assert(lead + pieces =~= lead);
        assert(components(lead) + pieces =~= components(lead));
    } else {
        let before = pieces.drop_last();
        assert forall|i: int| 0 <= i < before.len() implies is_component(
            #[trigger] before[i],
            lead.len() + i,
        ) by {
            assert(before[i] == pieces[i]);
        }
        lemma_components_keep(before, lead);
        assert((lead + pieces).drop_last() =~= lead + before);
        assert((lead + pieces).last() == pieces[pieces.len() - 1]);
        assert(components(lead + before).push(pieces.last()) =~= components(lead) + pieces);
    }
}

/// A plain path is read from its own text: writing it out and reading the
/// text gives the path again.
pub proof fn lemma_parse_of_text(path: PathView)
    requires
        is_plain(path),
    ensures
        parsed_path(path_text(path)) == path,
{
    let empty = Seq::<char>::empty();
    let none = Seq::<Seq<char>>::empty();
    let text = path_text(path);
    assert forall|i: int| 0 <= i < path.parts.len() implies slash_free(
        #[trigger] path.parts[i],
    ) by {}
    assert(components(none) =~= none);
    if path.parts.len() == 0 {
        assert(joined_parts(path.parts) =~= empty);
        if path.rooted {
            assert(text =~= seq!['/']);
            lemma_segments_after_slash(empty);
            assert(segments(empty) =~= seq![empty]);
            assert(segments(text) =~= seq![empty, empty]);
            assert(seq![empty, empty].drop_last() =~= seq![empty]);
            assert(seq![empty].drop_last() =~= none);
            assert(components(seq![empty]) =~= none);
            assert(components(seq![empty, empty]) =~= none);
        } else {
            assert(text =~= empty);
            assert(segments(text) =~= seq![empty]);
            assert(seq![empty].drop_last() =~= none);
            assert(components(seq![empty]) =~= none);
        }
        assert(parsed_path(text).parts =~= path.parts);
    } else {
        lemma_segments_of_joined(path.parts);
        let first = path.parts[0];
        assert(is_component(first, if path.rooted { 1int } else { 0int }));
        assert(joined_parts(path.parts).len() > 0) by {
            lemma_joined_has_text(path.parts);
        }
        if path.rooted {
            lemma_segments_after_slash(joined_parts(path.parts));
            let lead = seq![empty];
            assert(lead.drop_last() =~= none);
            assert(components(lead) =~= none);
            lemma_components_keep(path.parts, lead);
            assert(none + path.parts =~= path.parts);
            assert(text[0] == '/');
        } else {
            lemma_components_keep(path.parts, none);
            assert(none + path.parts =~= path.parts);
            assert(text[0] != '/') by {
                lemma_joined_starts(path.parts);
                assert(first[0] != '/');
            }
        }
    }
}

/// The text of components of which the first has a character has a
/// character.
proof fn lemma_joined_has_text(parts: Seq<Seq<char>>)
    requires
        parts.len() > 0,
        parts[0].len() > 0,
    ensures
        joined_parts(parts).len() > 0,
    decreases parts.len(),
{
    if parts.len() > 1 {
        assert(parts.drop_last()[0] == parts[0]);
        lemma_joined_has_text(parts.drop_last());
    }
}

/// The text of components of which the first has a character starts with
/// the first character of the first component.
proof fn lemma_joined_starts(parts: Seq<Seq<char>>)
    requires
        parts.len() > 0,
        parts[0].len() > 0,
    ensures
        joined_parts(parts).len() > 0,
        joined_parts(parts)[0] == parts[0][0],
    decreases parts.len(),
{
    if parts.len() > 1 {
        assert(parts.drop_last()[0] == parts[0]);
        lemma_joined_starts(parts.drop_last());
    }
}

/// The views of a list of paths, in order.
pub open spec fn path_views(paths: Seq<HatPath>) -> Seq<PathView> {
    Seq::new(paths.len(), |i: int| paths[i]@)
}

/// The path without components that does not start at the root.
pub open spec fn empty_path() -> PathView {
    PathView { rooted: false, parts: Seq::empty() }
}

/// Whether `dir` is `path` itself or one of the directories above it: both
/// start at the root or neither does, and the components of `dir` are the
/// first components of `path`.
pub open spec fn is_ancestor(dir: PathView, path: PathView) -> bool {
    &&& dir.rooted == path.rooted
    &&& dir.parts.len() <= path.parts.len()
    &&& path.parts.take(dir.parts.len() as int) == dir.parts
}

/// Whether `dir` is one of the directories above `path`, and not `path`
/// itself.
pub open spec fn is_proper_ancestor(dir: PathView, path: PathView) -> bool {
    is_ancestor(dir, path) && dir.parts.len() < path.parts.len()
}

/// `path` followed by `other`; a second path that starts at the root
/// replaces the first.
pub open spec fn joined(path: PathView, other: PathView) -> PathView {
    if other.rooted {
        other
    } else {
        PathView { rooted: path.rooted, parts: path.parts + other.parts }
    }
}

/// The part of `path` below `dir`, as a path that does not start at the
/// root. Below one of the directories above it, that is the components that
/// follow those of the directory. Below the empty path, and below `path`
/// itself, it is every component of `path`. Any other `dir` is an error.
pub open spec fn local_path_of(path: PathView, dir: PathView) -> Result<PathView, LocalPathError> {
    if is_proper_ancestor(dir, path) {
        Ok(PathView { rooted: false, parts: path.parts.skip(dir.parts.len() as int) })
    } else if dir == empty_path() || is_ancestor(dir, path) {
        Ok(PathView { rooted: false, parts: path.parts })
    } else {
        Err(LocalPathError::PathNotInDir)
    }
}

/// A path below a directory is found again from where it lies: the part of
/// `directory` followed by `local` that lies below `directory` is `local`,
/// for a `local` that has a component and does not start at the root.
pub proof fn lemma_local_path_of_joined(directory: PathView, local: PathView)
    requires
        !local.rooted,
        local.parts.len() > 0,
    ensures
        local_path_of(joined(directory, local), directory) == Ok::<PathView, LocalPathError>(local),
{
    let whole = joined(directory, local);
    assert(whole.parts.take(directory.parts.len() as int) =~= directory.parts);
    assert(whole.parts.skip(directory.parts.len() as int) =~= local.parts);
}

/// Every path lies below the directories above it: the part of a path below
/// one of them, put after that directory again, is the path.
pub proof fn lemma_joined_local_path(path: PathView, directory: PathView)
    requires
        is_proper_ancestor(directory, path),
    ensures
        local_path_of(path, directory) is Ok,
        joined(directory, local_path_of(path, directory)->Ok_0) == path,
{
    let local = local_path_of(path, directory)->Ok_0;
    assert(directory.parts + local.parts =~= path.parts) by {
        assert(path.parts.take(directory.parts.len() as int) == directory.parts);
    }
}

/// Being a directory above a path, or the path itself, is an order: every
/// path is above itself, and what is above a path is above all that the
/// path is above.
pub proof fn lemma_ancestor_order(a: PathView, b: PathView, c: PathView)
    ensures
        is_ancestor(a, a),
        is_ancestor(a, b) && is_ancestor(b, c) ==> is_ancestor(a, c),
        is_ancestor(a, b) && is_ancestor(b, a) ==> a == b,
{
    assert(a.parts.take(a.parts.len() as int) =~= a.parts);
    if is_ancestor(a, b) && is_ancestor(b, c) {
        assert(c.parts.take(a.parts.len() as int) =~= b.parts.take(a.parts.len() as int)) by {
            assert(c.parts.take(b.parts.len() as int) == b.parts);
        }
    }
    if is_ancestor(a, b) && is_ancestor(b, a) {
        assert(b.parts.take(a.parts.len() as int) =~= b.parts);
        assert(a.parts =~= b.parts);
    }
}

/// A path that can be made relative to a directory.
pub trait LocalPath {
    /// The path as a mathematical value.
    spec fn path_view(&self) -> PathView;

    fn local_path(&self, directory: &HatPath) -> (local: Result<HatPath, LocalPathError>)
        ensures
            local is Ok <==> local_path_of(self.path_view(), directory@) is Ok,
            local matches Ok(p) ==> Ok::<PathView, LocalPathError>(p@) == local_path_of(
                self.path_view(),
                directory@,
            ),
            local matches Err(e) ==> Err::<PathView, LocalPathError>(e) == local_path_of(
                self.path_view(),
                directory@,
            ),
    ;
}

/// Copies of the strings from position `from` up to, and not including,
/// position `to`, in order.
fn copy_range(parts: &Vec<String>, from: usize, to: usize) -> (copies: Vec<String>)
    requires
        from <= to <= parts@.len(),
    ensures
        texts(copies@) == texts(parts@).subrange(from as int, to as int),
{
    let mut copies: Vec<String> = Vec::new();
    let mut i: usize = from;
    while i < to
        invariant
            from <= i <= to <= parts@.len(),
            copies@.len() == i - from,
            forall|k: int| 0 <= k < copies@.len() ==> (#[trigger] copies@[k])@ == parts@[from + k]@,
        decreases to - i,
    {
        copies.push(parts[i].clone());
        i += 1;
    }
    assert(texts(copies@) =~= texts(parts@).subrange(from as int, to as int));
    copies
}

/// Copies of the strings from position `from` on, in order.
fn copy_parts(parts: &Vec<String>, from: usize) -> (copies: Vec<String>)
    requires
        from <= parts@.len(),
    ensures
        texts(copies@) == texts(parts@).skip(from as int),
{
    let copies = copy_range(parts, from, parts.len());
    assert(texts(parts@).subrange(from as int, parts@.len() as int) =~= texts(parts@).skip(
        from as int,
    ));
    copies
}

impl HatPath {
    /// The path without components that does not start at the root.
    pub fn new() -> (path: HatPath)
        ensures
            path@ == empty_path(),
    {
        let path = HatPath { rooted: false, parts: Vec::new() };
        assert(path@.parts =~= Seq::empty());
        path
    }

    /// The path with the given components.
    pub fn from_parts(rooted: bool, parts: Vec<String>) -> (path: HatPath)
        ensures
            path.rooted == rooted,
            path.parts == parts,
    {
        HatPath { rooted, parts }
    }

    /// A copy of the path.
    pub fn duplicate(&self) -> (copy: HatPath)
        ensures
            copy@ == self@,
    {
        let parts = copy_parts(&self.parts, 0);
        assert(texts(self.parts@).skip(0) =~= texts(self.parts@));
        HatPath { rooted: self.rooted, parts }
    }

    /// The path that a text names.
    pub fn parse(text: &str) -> (path: HatPath)
        ensures
            path@ == parsed_path(text@),
    {
        let len = text.unicode_len();
        let rooted = len > 0 && text.get_char(0) == '/';
        let mut pieces: Vec<String> = Vec::new();
        let mut current = String::new();
        let mut i: usize = 0;
        assert(text@.take(0) =~= Seq::<char>::empty());
        assert(texts(pieces@).push(current@) =~= seq![Seq::<char>::empty()]);
        while i < len
            invariant
                i <= len == text@.len(),
                texts(pieces@).push(current@) == segments(text@.take(i as int)),
            decreases len - i,
        {
            let ch = text.get_char(i);
            let ghost before = segments(text@.take(i as int));
            let ghost old_pieces = texts(pieces@);
            let ghost old_current = current@;
            proof {
                assert(text@.take(i + 1).drop_last() =~= text@.take(i as int));
                assert(text@.take(i + 1).last() == ch);
                assert(before.drop_last() =~= old_pieces);
                assert(before.last() == old_current);
            }
            if ch == '/' {
                pieces.push(current);
                current = String::new();
                assert(texts(pieces@) =~= before);
            } else {
                current.push(ch);
            }
            i += 1;
        }
        assert(text@.take(i as int) =~= text@);
        let ghost all = segments(text@);
        pieces.push(current);
        assert(texts(pieces@) =~= all);
        let mut parts: Vec<String> = Vec::new();
        let mut k: usize = 0;
        assert(all.take(0) =~= Seq::<Seq<char>>::empty());
        assert(texts(parts@) =~= Seq::<Seq<char>>::empty());
        while k < pieces.len()
            invariant
                k <= pieces@.len(),
                texts(pieces@) == all,
                texts(parts@) == components(all.take(k as int)),
            decreases pieces.len() - k,
        {
            let piece = &pieces[k];
            let ghost before = texts(parts@);
            proof {
                assert(all.take(k + 1).drop_last() =~= all.take(k as int));
                assert(all.take(k + 1).last() == piece@);
                reveal_strlit(".");
                assert("."@ =~= seq!['.']);
            }
            let empty = piece.as_str().unicode_len() == 0;
            let stop = crate::text::same_text(piece.as_str(), ".");
            if !empty && !(stop && k > 0) {
                parts.push(piece.clone());
                assert(texts(parts@) =~= before.push(piece@));
            }
            k += 1;
        }
        assert(all.take(k as int) =~= all);
        HatPath { rooted, parts }
    }

    /// The path with `suffix` added to the end of its text: to its last
    /// component, or as its only component where it has none.
    pub fn with_suffix(&self, suffix: &str) -> (path: HatPath)
        ensures
            path@ == suffixed(self@, suffix@),
    {
        let count = self.parts.len();
        assert(self@.parts.len() == count);
        let mut parts: Vec<String> = if count == 0 {
            Vec::new()
        } else {
            copy_range(&self.parts, 0, count - 1)
        };
        let mut last = if count == 0 {
            String::new()
        } else {
            self.parts[count - 1].clone()
        };
        last.append(suffix);
        let ghost before = texts(parts@);
        parts.push(last);
        proof {
            assert(texts(parts@) =~= before.push(last@));
            if count == 0 {
                assert(before =~= Seq::<Seq<char>>::empty());
                assert(Seq::<char>::empty() + suffix@ =~= suffix@);
                assert(texts(parts@) =~= seq![suffix@]);
            } else {
                assert(texts(parts@) =~= self@.parts.drop_last().push(self@.parts.last() + suffix@));
            }
        }
        HatPath { rooted: self.rooted, parts }
    }

    /// The path written out.
    pub fn to_text(&self) -> (text: String)
        ensures
            text@ == path_text(self@),
    {
        let mut text = String::new();
        if self.rooted {
            text.push('/');
        }
        let ghost lead = text@;
        let mut i: usize = 0;
        assert(self@.parts.take(0) =~= Seq::<Seq<char>>::empty());
        assert(lead + Seq::<char>::empty() =~= lead);
        while i < self.parts.len()
            invariant
                i <= self.parts@.len(),
                self@.parts.len() == self.parts@.len(),
                text@ == lead + joined_parts(self@.parts.take(i as int)),
            decreases self.parts.len() - i,
        {
            let ghost before = joined_parts(self@.parts.take(i as int));
            proof {
                assert(self@.parts.take(i + 1).drop_last() =~= self@.parts.take(i as int));
                assert(self@.parts.take(i + 1).last() == self.parts@[i as int]@);
            }
            if i > 0 {
                text.push('/');
            }
            text.append(self.parts[i].as_str());
            proof {
                if i > 0 {
                    assert(text@ =~= lead + (before + seq!['/'] + self.parts@[i as int]@));
                } else {
                    assert(before =~= Seq::<char>::empty());
                    assert(text@ =~= lead + self.parts@[i as int]@);
                    assert(self@.parts.take(1)[0] == self.parts@[0]@);
                }
            }
            i += 1;
        }
        assert(self@.parts.take(i as int) =~= self@.parts);
        proof {
            if !self.rooted {
                assert(lead =~= Seq::<char>::empty());
                assert(lead + joined_parts(self@.parts) =~= joined_parts(self@.parts));
            } else {
                assert(lead =~= seq!['/']);
            }
        }
        text
    }

    /// Whether the two paths have the same components and both start at the
    /// root or neither does.
    pub fn same_as(&self, other: &HatPath) -> (same: bool)
        ensures
            same == (self@ == other@),
    {
        if self.rooted != other.rooted || self.parts.len() != other.parts.len() {
            assert(self@.parts.len() == self.parts@.len());
            assert(other@.parts.len() == other.parts@.len());
            return false;
        }
        let agree = self.starts_with_parts(other);
        assert(self@.parts.take(other@.parts.len() as int) =~= self@.parts);
        agree
    }

    /// Whether the components of `other` are the first components of `self`.
    fn starts_with_parts(&self, other: &HatPath) -> (agree: bool)
        ensures
            agree == (other@.parts.len() <= self@.parts.len() && self@.parts.take(
                other@.parts.len() as int,
            ) == other@.parts),
    {
        if other.parts.len() > self.parts.len() {
            return false;
        }
        let mut i: usize = 0;
        while i < other.parts.len()
            invariant
                i <= other.parts@.len() <= self.parts@.len(),
                forall|k: int| 0 <= k < i ==> self.parts@[k]@ == other.parts@[k]@,
            decreases other.parts.len() - i,
        {
            if self.parts[i] != other.parts[i] {
                assert(self@.parts.take(other@.parts.len() as int)[i as int] == self.parts@[i as int]@);
                assert(other@.parts[i as int] == other.parts@[i as int]@);
                return false;
            }
            i += 1;
        }
        assert(self@.parts.take(other@.parts.len() as int) =~= other@.parts);
        true
    }

    /// Whether `self` is `path` or one of the directories above it.
    pub fn is_ancestor_of(&self, path: &HatPath) -> (above: bool)
        ensures
            above == is_ancestor(self@, path@),
    {
        self.rooted == path.rooted && path.starts_with_parts(self)
    }

    /// The path followed by `other`.
    pub fn join(&self, other: &HatPath) -> (path: HatPath)
        ensures
            path@ == joined(self@, other@),
    {
        if other.rooted {
            return other.duplicate();
        }
        let mut parts = copy_parts(&self.parts, 0);
        let mut i: usize = 0;
        assert(texts(self.parts@).skip(0) =~= texts(self.parts@));
        assert(parts@.len() == texts(parts@).len());
        assert forall|k: int| 0 <= k < self.parts@.len() implies (#[trigger] parts@[k])@
            == self.parts@[k]@ by {
            assert(texts(parts@)[k] == texts(self.parts@)[k]);
        }
        while i < other.parts.len()
            invariant
                i <= other.parts@.len(),
                parts@.len() == self.parts@.len() + i,
                forall|k: int| 0 <= k < self.parts@.len() ==> (#[trigger] parts@[k])@ == self.parts@[k]@,
                forall|k: int|
                    0 <= k < i ==> (#[trigger] parts@[self.parts@.len() + k])@ == other.parts@[k]@,
            decreases other.parts.len() - i,
        {
            parts.push(other.parts[i].clone());
            i += 1;
        }
        assert(texts(parts@) =~= texts(self.parts@) + texts(other.parts@)) by {
            assert forall|k: int| 0 <= k < parts@.len() implies texts(parts@)[k] == (texts(
                self.parts@,
            ) + texts(other.parts@))[k] by {
                if k >= self.parts@.len() {
                    let j = k - self.parts@.len();
                    assert(parts@[self.parts@.len() + j]@ == other.parts@[j]@);
                }
            }
        }
        HatPath { rooted: self.rooted, parts }
    }
}

/// Whether `at` is the place of the last full stop in `name`.
pub open spec fn is_last_dot(name: Seq<char>, at: int) -> bool {
    &&& 0 <= at < name.len()
    &&& name[at] == '.'
    &&& forall|j: int| at < j < name.len() ==> name[j] != '.'
}

/// The extension of a file name: what follows its last full stop. A name
/// without a full stop has none, nor has one whose only full stop is its
/// first character, nor the name `..`.
pub open spec fn extension_of_name(name: Seq<char>) -> Option<Seq<char>> {
    if name == seq!['.', '.'] {
        None
    } else if exists|at: int| is_last_dot(name, at) {
        let at = choose|at: int| is_last_dot(name, at);
        if at == 0 {
            None
        } else {
            Some(name.skip(at + 1))
        }
    } else {
        None
    }
}

/// A file name without its extension: what stands before its last full
/// stop. A name without a full stop stays as it is, and so does one whose
/// only full stop is its first character, and the name `..`.
pub open spec fn stem_of_name(name: Seq<char>) -> Seq<char> {
    if name == seq!['.', '.'] {
        name
    } else if exists|at: int| is_last_dot(name, at) {
        let at = choose|at: int| is_last_dot(name, at);
        if at == 0 {
            name
        } else {
            name.take(at)
        }
    } else {
        name
    }
}

/// Whether a component names a file or a folder, and not the folder itself
/// or the one above.
pub open spec fn is_file_name(name: Seq<char>) -> bool {
    name != seq!['.'] && name != seq!['.', '.']
}

/// The name that a new hat in a folder gets: the name of the folder, less
/// its extension, and less the extension that is left then. A path that
/// does not end in a name gives none.
pub open spec fn folder_name_of(path: PathView) -> Option<Seq<char>> {
    if path.parts.len() > 0 && is_file_name(path.parts.last()) {
        let bare = stem_of_name(path.parts.last());
        if is_file_name(bare) {
            Some(stem_of_name(bare))
        } else {
            None
        }
    } else {
        None
    }
}

/// The extension of a path: that of its last component.
pub open spec fn extension_of(path: PathView) -> Option<Seq<char>> {
    if path.parts.len() == 0 {
        None
    } else {
        extension_of_name(path.parts.last())
    }
}

/// The extension of a file name.
pub fn name_extension(name: &str) -> (extension: Option<String>)
    ensures
        extension is Some <==> extension_of_name(name@) is Some,
        extension matches Some(e) ==> Some(e@) == extension_of_name(name@),
{
    let len = name.unicode_len();
    if len == 2 && name.get_char(0) == '.' && name.get_char(1) == '.' {
        assert(name@ =~= seq!['.', '.']);
        return None;
    }
    assert(name@ != seq!['.', '.']) by {
        if name@ == seq!['.', '.'] {
            assert(name@.len() == 2 && name@[0] == '.' && name@[1] == '.');
        }
    }
    let mut i: usize = len;
    while i > 0
        invariant
            i <= len == name@.len(),
            name@ != seq!['.', '.'],
            forall|j: int| i <= j < len ==> name@[j] != '.',
        decreases i,
    {
        i -= 1;
        if name.get_char(i) == '.' {
            assert(is_last_dot(name@, i as int));
            let ghost chosen = choose|at: int| is_last_dot(name@, at);
            assert(chosen == i) by {
                if chosen < i {
                    assert(name@[i as int] != '.');
                }
            }
            if i == 0 {
                return None;
            }
            let tail = name.substring_char(i + 1, len);
            assert(name@.subrange(i + 1, len as int) =~= name@.skip(i + 1));
            return Some(String::from_str(tail));
        }
    }
    assert(!exists|at: int| is_last_dot(name@, at));
    None
}

/// A file name without its extension.
pub fn name_stem(name: &str) -> (stem: String)
    ensures
        stem@ == stem_of_name(name@),
{
    let len = name.unicode_len();
    if len == 2 && name.get_char(0) == '.' && name.get_char(1) == '.' {
        assert(name@ =~= seq!['.', '.']);
        return String::from_str(name);
    }
    assert(name@ != seq!['.', '.']) by {
        if name@ == seq!['.', '.'] {
            assert(name@.len() == 2 && name@[0] == '.' && name@[1] == '.');
        }
    }
    let mut i: usize = len;
    while i > 0
        invariant
            i <= len == name@.len(),
            name@ != seq!['.', '.'],
            forall|j: int| i <= j < len ==> name@[j] != '.',
        decreases i,
    {
        i -= 1;
        if name.get_char(i) == '.' {
            assert(is_last_dot(name@, i as int));
            let ghost chosen = choose|at: int| is_last_dot(name@, at);
            assert(chosen == i) by {
                if chosen < i {
                    assert(name@[i as int] != '.');
                }
            }
            if i == 0 {
                return String::from_str(name);
            }
            let head = name.substring_char(0, i);
            assert(name@.subrange(0, i as int) =~= name@.take(i as int));
            return String::from_str(head);
        }
    }
    assert(!exists|at: int| is_last_dot(name@, at));
    String::from_str(name)
}

/// Whether a component names a file or a folder, and not the folder itself
/// or the one above.
fn names_file(name: &str) -> (named: bool)
    ensures
        named == is_file_name(name@),
{
    proof {
        reveal_strlit(".");
        reveal_strlit("..");
        assert("."@ =~= seq!['.']);
        assert(".."@ =~= seq!['.', '.']);
    }
    !crate::text::same_text(name, ".") && !crate::text::same_text(name, "..")
}

impl HatPath {
    /// The name that a new hat in this folder gets.
    pub fn folder_name(&self) -> (name: Option<String>)
        ensures
            name is Some <==> folder_name_of(self@) is Some,
            name matches Some(n) ==> Some(n@) == folder_name_of(self@),
    {
        let count = self.parts.len();
        assert(self@.parts.len() == self.parts@.len());
        if count == 0 {
            return None;
        }
        let last = self.parts[count - 1].as_str();
        assert(self@.parts.last() == self.parts@[count - 1]@);
        if !names_file(last) {
            return None;
        }
        let bare = name_stem(last);
        if !names_file(bare.as_str()) {
            return None;
        }
        Some(name_stem(bare.as_str()))
    }

    /// The extension of the path: that of its last component.
    pub fn extension(&self) -> (extension: Option<String>)
        ensures
            extension is Some <==> extension_of(self@) is Some,
            extension matches Some(e) ==> Some(e@) == extension_of(self@),
    {
        let count = self.parts.len();
        assert(self@.parts.len() == self.parts@.len());
        if count == 0 {
            return None;
        }
        assert(self@.parts.last() == self.parts@[count - 1]@);
        name_extension(self.parts[count - 1].as_str())
    }
}

impl PartialEq for HatPath {
    /// Two paths are equal if they have the same components and both start
    /// at the root or neither does.
    fn eq(&self, other: &HatPath) -> (equal: bool) {
        self.same_as(other)
    }
}

impl vstd::std_specs::cmp::PartialEqSpecImpl for HatPath {
    open spec fn obeys_eq_spec() -> bool {
        true
    }

    open spec fn eq_spec(&self, other: &HatPath) -> bool {
        self@ == other@
    }
}

impl LocalPath for HatPath {
    open spec fn path_view(&self) -> PathView {
        self@
    }

    fn local_path(&self, directory: &HatPath) -> (local: Result<HatPath, LocalPathError>) {
        let above = directory.is_ancestor_of(self);
        assert(directory@.parts.len() == directory.parts@.len());
        assert(self@.parts.len() == self.parts@.len());
        if above && directory.parts.len() < self.parts.len() {
            let parts = copy_parts(&self.parts, directory.parts.len());
            Ok(HatPath { rooted: false, parts })
        } else if above || (!directory.rooted && directory.parts.len() == 0) {
            assert(directory@ == empty_path() <==> !directory.rooted && directory.parts@.len() == 0) by {
                if !directory.rooted && directory.parts@.len() == 0 {
                    assert(directory@.parts =~= Seq::empty());
                }
            }
            let parts = copy_parts(&self.parts, 0);
            assert(texts(self.parts@).skip(0) =~= texts(self.parts@));
            Ok(HatPath { rooted: false, parts })
        } else {
            assert(directory@ != empty_path());
            Err(LocalPathError::PathNotInDir)
        }
    }
}

} // verus!
