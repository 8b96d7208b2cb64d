//! Paths as sequences of components, without access to a file system.

use crate::order::views;
use crate::order::Ranked;
use crate::table::{Duplicate, Key};
use crate::text::{
    chars_of, join_all, join_texts, same_text, text_before, text_less, text_less_irreflexive,
    text_less_total, text_less_transitive,
};
use vstd::prelude::*;

verus! {

broadcast use crate::order::group_views;

/// The component that an absolute path begins with.
pub open spec fn root_part() -> Seq<char> {
    seq!['/']
}

/// The component for the current directory.
pub open spec fn current_part() -> Seq<char> {
    seq!['.']
}

/// The component for the parent directory.
pub open spec fn parent_part() -> Seq<char> {
    seq!['.', '.']
}

/// The components so far, with one more segment of the text behind them.
/// Empty segments are no components, and `.` is one only in front.
pub open spec fn close_segment(parts: Seq<Seq<char>>, segment: Seq<char>) -> Seq<Seq<char>> {
    if segment.len() == 0 || (segment == current_part() && parts.len() > 0) {
        parts
    } else {
        parts.push(segment)
    }
}

/// The components that are complete at the end of the text, and the segment
/// that is still open there.
pub open spec fn scan_path(text: Seq<char>) -> (Seq<Seq<char>>, Seq<char>)
    decreases text.len(),
{
    if text.len() == 0 {
        (Seq::empty(), Seq::empty())
    } else {
        let (parts, segment) = scan_path(text.drop_last());
        if text.last() != '/' {
            (parts, segment.push(text.last()))
        } else if text.len() == 1 {
            (seq![root_part()], Seq::empty())
        } else {
            (close_segment(parts, segment), Seq::empty())
        }
    }
}

/// The components of a path. An absolute path begins with a component of its
/// own, repeated separators count once, and `.` counts only in front.
pub open spec fn components(text: Seq<char>) -> Seq<Seq<char>> {
    close_segment(scan_path(text).0, scan_path(text).1)
}

/// The text of a path.
pub open spec fn render_path(parts: Seq<Seq<char>>) -> Seq<char> {
    if parts.len() > 0 && parts[0] == root_part() {
        root_part() + join_texts(parts.drop_first(), root_part())
    } else {
        join_texts(parts, root_part())
    }
}

/// A path is absolute when it begins at the root.
pub open spec fn is_absolute_path(parts: Seq<Seq<char>>) -> bool {
    parts.len() > 0 && parts[0] == root_part()
}

/// One component applied to the components that are already clean.
pub open spec fn clean_step(parts: Seq<Seq<char>>, part: Seq<char>) -> Seq<Seq<char>> {
    if part == current_part() {
        parts
    } else if part == parent_part() && parts.len() > 0 && parts.last() == root_part() {
        parts
    } else if part == parent_part() && parts.len() > 0 && parts.last() != parent_part() {
        parts.drop_last()
    } else {
        parts.push(part)
    }
}

/// All components applied in order.
pub open spec fn clean_steps(parts: Seq<Seq<char>>) -> Seq<Seq<char>>
    decreases parts.len(),
{
    if parts.len() == 0 {
        parts
    } else {
        clean_step(clean_steps(parts.drop_last()), parts.last())
    }
}

/// A path without `.` and without `..` behind another component. A path that
/// leads nowhere else is `.`.
pub open spec fn clean_path(parts: Seq<Seq<char>>) -> Seq<Seq<char>> {
    if clean_steps(parts).len() == 0 {
        seq![current_part()]
    } else {
        clean_steps(parts)
    }
}

/// One component of a relative path applied below a base.
pub open spec fn logical_step(base: Seq<Seq<char>>, part: Seq<char>) -> Seq<Seq<char>> {
    if part == current_part() {
        base
    } else if part == parent_part() {
        if base.len() == 0 || base == seq![root_part()] {
            base
        } else {
            base.drop_last()
        }
    } else {
        base.push(part)
    }
}

/// A relative path applied below a base, where `..` leads up and stops at the top.
pub open spec fn logical_join(base: Seq<Seq<char>>, relative: Seq<Seq<char>>) -> Seq<Seq<char>>
    decreases relative.len(),
{
    if relative.len() == 0 {
        base
    } else {
        logical_step(logical_join(base, relative.drop_last()), relative.last())
    }
}

/// The components of a path that is taken as relative: a root in front does not count.
pub open spec fn relative_parts(parts: Seq<Seq<char>>) -> Seq<Seq<char>> {
    if is_absolute_path(parts) {
        parts.drop_first()
    } else {
        parts
    }
}

/// A component that names a file or directory.
pub open spec fn is_name(part: Seq<char>) -> bool {
    part.len() > 0 && part != current_part() && part != parent_part() && !part.contains('/')
}

/// Every component names a file or directory.
pub open spec fn all_names(parts: Seq<Seq<char>>) -> bool {
    forall|i: int| 0 <= i < parts.len() ==> is_name(#[trigger] parts[i])
}

/// A text without separators extends the open segment.
proof fn scan_plain(text: Seq<char>, tail: Seq<char>)
    requires
        !tail.contains('/'),
    ensures
        scan_path(text + tail) == (scan_path(text).0, scan_path(text).1 + tail),
    decreases tail.len(),
{
    if tail.len() == 0 {
        assert(text + tail =~= text);
        assert(scan_path(text).1 + tail =~= scan_path(text).1);
    } else {
        let rest = tail.drop_last();
        assert(!rest.contains('/')) by {
            if rest.contains('/') {
                let i = choose|i: int| 0 <= i < rest.len() && rest[i] == '/';
                assert(tail[i] == '/');
            }
        }
        scan_plain(text, rest);
        let all = text + tail;
        assert(all.drop_last() =~= text + rest);
        assert(all.last() == tail.last());
        assert(tail.contains(tail.last()));
        assert(scan_path(text).1 + tail =~= (scan_path(text).1 + rest).push(tail.last()));
    }
}

/// The components of names joined by separators are those names.
pub proof fn components_of_names(parts: Seq<Seq<char>>)
    requires
        all_names(parts),
    ensures
        components(join_texts(parts, root_part())) == parts,
        parts.len() > 0 ==> scan_path(join_texts(parts, root_part())) == (
            parts.drop_last(),
            parts.last(),
        ),
    decreases parts.len(),
{
    let sep = root_part();
    let text = join_texts(parts, sep);
    if parts.len() == 0 {
        assert(components(text) =~= parts);
    } else if parts.len() == 1 {
        assert(is_name(parts[0]));
        scan_plain(Seq::empty(), parts[0]);
        assert(Seq::<char>::empty() + parts[0] =~= parts[0]);
        assert(parts.drop_last() =~= Seq::<Seq<char>>::empty());
        assert(parts =~= Seq::<Seq<char>>::empty().push(parts[0]));
    } else {
        let rest = parts.drop_last();
        assert(all_names(rest)) by {
            assert forall|i: int| 0 <= i < rest.len() implies is_name(#[trigger] rest[i]) by {
                assert(is_name(parts[i]));
            }
        }
        components_of_names(rest);
        let front = join_texts(rest, sep);
        let middle = front + sep;
        assert(is_name(parts[parts.len() - 1]));
        assert(middle.drop_last() =~= front);
        assert(middle.last() == '/');
        join_not_empty(rest);
        assert(scan_path(middle) == (components(front), Seq::<char>::empty()));
        scan_plain(middle, parts.last());
        assert(Seq::<char>::empty() + parts.last() =~= parts.last());
        assert(text =~= middle + parts.last());
        assert(parts =~= rest.push(parts.last()));
    }
}

/// Joining at least one name gives a text that is not empty.
proof fn join_not_empty(parts: Seq<Seq<char>>)
    requires
        all_names(parts),
        parts.len() > 0,
    ensures
        join_texts(parts, root_part()).len() > 0,
{
    assert(is_name(parts[0]));
    assert(is_name(parts[parts.len() - 1]));
}

/// Names applied below a base stand behind it.
pub proof fn logical_join_names(base: Seq<Seq<char>>, parts: Seq<Seq<char>>)
    requires
        all_names(parts),
    ensures
        logical_join(base, parts) == base + parts,
    decreases parts.len(),
{
    if parts.len() == 0 {
        assert(base + parts =~= base);
    } else {
        let rest = parts.drop_last();
        assert forall|i: int| 0 <= i < rest.len() implies is_name(#[trigger] rest[i]) by {
            assert(is_name(parts[i]));
        }
        logical_join_names(base, rest);
        assert(is_name(parts[parts.len() - 1]));
        assert(base + parts =~= (base + rest).push(parts.last()));
    }
}

/// A clean path: `..` only in front of a relative path, the root only in
/// front, and names otherwise.
pub open spec fn is_clean(parts: Seq<Seq<char>>) -> bool {
    forall|i: int| 0 <= i < parts.len() ==> clean_part(parts, i)
}

/// What may stand at one place of a clean path.
pub open spec fn clean_part(parts: Seq<Seq<char>>, i: int) -> bool {
    ||| is_name(parts[i])
    ||| (parts[i] == parent_part() && (i == 0 || parts[i - 1] == parent_part()))
    ||| (parts[i] == root_part() && i == 0)
}

/// Cleaning steps leave a clean path as it is.
pub proof fn clean_steps_of_clean(parts: Seq<Seq<char>>)
    requires
        is_clean(parts),
    ensures
        clean_steps(parts) == parts,
    decreases parts.len(),
{
    if parts.len() > 0 {
        let rest = parts.drop_last();
        assert forall|i: int| 0 <= i < rest.len() implies clean_part(rest, i) by {
            assert(clean_part(parts, i));
        }
        clean_steps_of_clean(rest);
        assert(clean_part(parts, parts.len() - 1));
        assert(root_part() != parent_part()) by {
            assert(root_part().len() != parent_part().len());
        }
        assert(root_part() != current_part()) by {
            assert(root_part()[0] != current_part()[0]);
        }
        assert(parent_part() != current_part()) by {
            assert(parent_part().len() != current_part().len());
        }
        assert(parts =~= rest.push(parts.last()));
        if parts.last() == parent_part() && rest.len() > 0 {
            assert(parts[parts.len() - 2] == parent_part());
        }
    }
}

/// Every component is one that a path text can hold.
pub open spec fn are_components(parts: Seq<Seq<char>>) -> bool {
    forall|i: int| 0 <= i < parts.len() ==> is_component(parts, i)
}

/// What may stand at one place of a path.
pub open spec fn is_component(parts: Seq<Seq<char>>, i: int) -> bool {
    ||| is_name(parts[i])
    ||| parts[i] == parent_part()
    ||| (parts[i] == current_part() && i == 0)
    ||| (parts[i] == root_part() && i == 0)
}

/// Scanning yields components, and an open segment without separators.
proof fn scan_yields_components(text: Seq<char>)
    ensures
        are_components(scan_path(text).0),
        !scan_path(text).1.contains('/'),
    decreases text.len(),
{
    if text.len() > 0 {
        scan_yields_components(text.drop_last());
        let (parts, segment) = scan_path(text.drop_last());
        if text.last() != '/' {
            let longer = segment.push(text.last());
            if longer.contains('/') {
                let i = choose|i: int| 0 <= i < longer.len() && longer[i] == '/';
                assert(segment[i] == '/');
            }
        } else {
            close_keeps_components(parts, segment);
        }
    }
}

/// Closing a segment keeps all components in form.
proof fn close_keeps_components(parts: Seq<Seq<char>>, segment: Seq<char>)
    requires
        are_components(parts),
        !segment.contains('/'),
    ensures
        are_components(close_segment(parts, segment)),
{
    let out = close_segment(parts, segment);
    assert forall|i: int| 0 <= i < out.len() implies is_component(out, i) by {
        if i < parts.len() {
            assert(is_component(parts, i));
        }
    }
}

/// The components of a text are components.
pub proof fn components_are_components(text: Seq<char>)
    ensures
        are_components(components(text)),
{
    scan_yields_components(text);
    close_keeps_components(scan_path(text).0, scan_path(text).1);
}

/// Cleaning gives a clean path, or `.` where nothing is left.
pub proof fn clean_steps_clean(parts: Seq<Seq<char>>)
    requires
        are_components(parts),
    ensures
        is_clean(clean_steps(parts)),
    decreases parts.len(),
{
    if parts.len() > 0 {
        let rest = parts.drop_last();
        assert forall|i: int| 0 <= i < rest.len() implies is_component(rest, i) by {
            assert(is_component(parts, i));
        }
        clean_steps_clean(rest);
        let before = clean_steps(rest);
        let out = clean_steps(parts);
        assert(is_component(parts, parts.len() - 1));
        assert(rest.len() == 0 ==> before.len() == 0);
        assert forall|i: int| 0 <= i < out.len() implies clean_part(out, i) by {
            if i < before.len() {
                assert(clean_part(before, i));
            }
        }
    }
}

/// A path, as the sequence of its components.
#[derive(Debug, PartialEq, Eq, Hash)]
pub struct LogicalPath {
    parts: Vec<String>,
}

impl View for LogicalPath {
    type V = Seq<Seq<char>>;

    closed spec fn view(&self) -> Seq<Seq<char>> {
        views(self.parts@)
    }
}

impl LogicalPath {
    #[verifier::type_invariant]
    spec fn formed(self) -> bool {
        are_components(views(self.parts@))
    }
}

/// Where a component stands in the order: the root, `.`, `..`, then names.
pub open spec fn part_rank(part: Seq<char>) -> int {
    if part == root_part() {
        0
    } else if part == current_part() {
        1
    } else if part == parent_part() {
        2
    } else {
        3
    }
}

/// The order on components, where names are ordered as text.
pub open spec fn part_less(a: Seq<char>, b: Seq<char>) -> bool {
    part_rank(a) < part_rank(b) || (part_rank(a) == 3 && part_rank(b) == 3 && text_less(a, b))
}

/// Component-wise order on paths.
pub open spec fn parts_less(a: Seq<Seq<char>>, b: Seq<Seq<char>>) -> bool
    decreases a.len(),
{
    if b.len() == 0 {
        false
    } else if a.len() == 0 {
        true
    } else if a[0] != b[0] {
        part_less(a[0], b[0])
    } else {
        parts_less(a.drop_first(), b.drop_first())
    }
}

/// No path precedes itself.
pub proof fn parts_less_irreflexive(a: Seq<Seq<char>>)
    ensures
        !parts_less(a, a),
    decreases a.len(),
{
    if a.len() > 0 {
        parts_less_irreflexive(a.drop_first());
    }
}

/// The order on paths is transitive.
pub proof fn parts_less_transitive(a: Seq<Seq<char>>, b: Seq<Seq<char>>, c: Seq<Seq<char>>)
    requires
        parts_less(a, b),
        parts_less(b, c),
    ensures
        parts_less(a, c),
    decreases a.len(),
{
    if a.len() > 0 && b.len() > 0 && c.len() > 0 {
        if a[0] == b[0] && b[0] == c[0] {
            parts_less_transitive(a.drop_first(), b.drop_first(), c.drop_first());
        } else if a[0] != b[0] && b[0] != c[0] {
            if part_rank(a[0]) == 3 && part_rank(b[0]) == 3 && part_rank(c[0]) == 3 {
                text_less_transitive(a[0], b[0], c[0]);
            }
            text_less_irreflexive(a[0]);
        }
    }
}

/// Two paths are equal or one precedes the other.
pub proof fn parts_less_total(a: Seq<Seq<char>>, b: Seq<Seq<char>>)
    ensures
        parts_less(a, b) || a == b || parts_less(b, a),
    decreases a.len(),
{
    if a.len() > 0 && b.len() > 0 {
        if a[0] == b[0] {
            parts_less_total(a.drop_first(), b.drop_first());
            if a.drop_first() == b.drop_first() {
                assert(a =~= seq![a[0]] + a.drop_first());
                assert(b =~= seq![b[0]] + b.drop_first());
            }
        } else {
            text_less_total(a[0], b[0]);
        }
    } else if a.len() == 0 && b.len() == 0 {
        assert(a =~= b);
    }
}

impl Clone for LogicalPath {
    fn clone(&self) -> (copy: Self)
        ensures
            copy@ == self@,
    {
        proof {
            use_type_invariant(self);
        }
        let mut parts: Vec<String> = Vec::new();
        let mut i: usize = 0;
        while i < self.parts.len()
            invariant
                i <= self.parts@.len(),
                views(parts@) == views(self.parts@).take(i as int),
            decreases self.parts.len() - i,
        {
            parts.push(self.parts[i].clone());
            assert(views(parts@) =~= views(self.parts@).take(i + 1));
            i = i + 1;
        }
        assert(views(self.parts@).take(i as int) =~= views(self.parts@));
        LogicalPath { parts }
    }
}

impl Duplicate for LogicalPath {
    fn duplicate(&self) -> Self {
        self.clone()
    }
}

impl Key for LogicalPath {
    fn same_key(&self, other: &Self) -> bool {
        if self.parts.len() != other.parts.len() {
            assert(self@.len() != other@.len());
            return false;
        }
        let mut i: usize = 0;
        while i < self.parts.len()
            invariant
                i <= self.parts@.len(),
                self.parts@.len() == other.parts@.len(),
                forall|j: int| 0 <= j < i ==> self.parts@[j]@ == other.parts@[j]@,
            decreases self.parts.len() - i,
        {
            if self.parts[i] != other.parts[i] {
                assert(self@[i as int] != other@[i as int]);
                return false;
            }
            i = i + 1;
        }
        assert(self@ =~= other@);
        true
    }

    fn copy_key(&self) -> Self {
        self.clone()
    }
}

/// Whether a component is the one for the current directory.
fn is_current(part: &str) -> (r: bool)
    ensures
        r == (part@ == current_part()),
{
    proof {
        reveal_strlit(".");
        assert("."@ =~= current_part());
    }
    same_text(part, ".")
}

/// Whether a component is the one for the parent directory.
fn is_parent(part: &str) -> (r: bool)
    ensures
        r == (part@ == parent_part()),
{
    proof {
        reveal_strlit("..");
        assert(".."@ =~= parent_part());
    }
    same_text(part, "..")
}

/// Whether a component is the root.
fn is_root(part: &str) -> (r: bool)
    ensures
        r == (part@ == root_part()),
{
    proof {
        reveal_strlit("/");
        assert("/"@ =~= root_part());
    }
    same_text(part, "/")
}

/// Where a component stands in the order of components.
fn rank_of(part: &str) -> (rank: u8)
    ensures
        rank == part_rank(part@),
{
    if is_root(part) {
        0
    } else if is_current(part) {
        1
    } else if is_parent(part) {
        2
    } else {
        3
    }
}

/// Adds a segment of the text to the components.
fn add_segment(parts: &mut Vec<String>, segment: String)
    ensures
        views(final(parts)@) == close_segment(views(old(parts)@), segment@),
{
    let ghost before = parts@;
    let empty: bool = segment.as_str().is_empty();
    if !empty && !(is_current(segment.as_str()) && parts.len() > 0) {
        parts.push(segment);
        assert(views(parts@) =~= views(before).push(segment@));
    }
}

impl LogicalPath {
    /// The path that a text names.
    pub fn parse(text: &str) -> (path: Self)
        ensures
            path@ == components(text@),
    {
        let chars = chars_of(text);
        let mut parts: Vec<String> = Vec::new();
        let mut segment = String::new();
        let mut i: usize = 0;
        assert(text@.take(0) =~= Seq::empty());
        assert(views(parts@) =~= Seq::empty());
        while i < chars.len()
            invariant
                chars@ == text@,
                i <= chars@.len(),
                scan_path(text@.take(i as int)) == (views(parts@), segment@),
            decreases chars.len() - i,
        {
            let c: char = chars[i];
            proof {
                let next = text@.take(i + 1);
                assert(next.drop_last() =~= text@.take(i as int));
                assert(next.last() == c);
            }
            if c != '/' {
                segment.push(c);
            } else if i == 0 {
                proof {
                    reveal_strlit("/");
                    assert("/"@ =~= root_part());
                }
                parts.push("/".to_owned());
                assert(views(parts@) =~= seq![root_part()]);
                segment = String::new();
            } else {
                add_segment(&mut parts, segment);
                segment = String::new();
            }
            i = i + 1;
        }
        assert(text@.take(i as int) =~= text@);
        add_segment(&mut parts, segment);
        proof {
            components_are_components(text@);
        }
        LogicalPath { parts }
    }

    /// The path without components.
    pub fn empty() -> (path: Self)
        ensures
            path@ == Seq::<Seq<char>>::empty(),
    {
        let parts: Vec<String> = Vec::new();
        assert(views(parts@) =~= Seq::empty());
        LogicalPath { parts }
    }

    /// The text of the path.
    pub fn to_text(&self) -> (text: String)
        ensures
            text@ == render_path(self@),
    {
        proof {
            reveal_strlit("/");
            assert("/"@ =~= root_part());
        }
        if self.is_absolute() {
            let rest = self.suffix(1);
            assert(rest@ =~= self@.drop_first());
            let mut text = "/".to_owned();
            text.append(join_all(&rest.parts, "/").as_str());
            text
        } else {
            join_all(&self.parts, "/")
        }
    }

    /// Whether the path begins at the root.
    pub fn is_absolute(&self) -> (r: bool)
        ensures
            r == is_absolute_path(self@),
    {
        self.parts.len() > 0 && is_root(self.parts[0].as_str())
    }

    /// How many components the path has.
    pub fn count(&self) -> (n: usize)
        ensures
            n == self@.len(),
            are_components(self@),
    {
        proof {
            use_type_invariant(self);
        }
        self.parts.len()
    }

    /// The component at one place.
    pub fn part(&self, i: usize) -> (part: &str)
        requires
            i < self@.len(),
        ensures
            part@ == self@[i as int],
    {
        self.parts[i].as_str()
    }

    /// The components from one place on.
    pub fn suffix(&self, from: usize) -> (rest: Self)
        requires
            from <= self@.len(),
        ensures
            rest@ == self@.skip(from as int),
    {
        proof {
            use_type_invariant(self);
        }
        let mut parts: Vec<String> = Vec::new();
        let mut i: usize = from;
        while i < self.parts.len()
            invariant
                from <= i <= self.parts@.len(),
                views(parts@) == views(self.parts@).subrange(from as int, i as int),
            decreases self.parts.len() - i,
        {
            parts.push(self.parts[i].clone());
            assert(views(parts@) =~= views(self.parts@).subrange(from as int, i + 1));
            i = i + 1;
        }
        assert(views(parts@) =~= self@.skip(from as int));
        assert forall|k: int| 0 <= k < views(parts@).len() implies is_component(views(parts@), k) by {
            assert(is_component(self@, from + k));
        }
        LogicalPath { parts }
    }

    /// Whether the path begins with all components of the other.
    pub fn starts_with(&self, other: &LogicalPath) -> (r: bool)
        ensures
            r == other@.is_prefix_of(self@),
    {
        if other.parts.len() > self.parts.len() {
            return false;
        }
        let mut i: usize = 0;
        while i < other.parts.len()
            invariant
                i <= other.parts@.len() <= self.parts@.len(),
                forall|j: int| 0 <= j < i ==> self.parts@[j]@ == other.parts@[j]@,
            decreases other.parts.len() - i,
        {
            if self.parts[i] != other.parts[i] {
                assert(other@[i as int] != self@.subrange(0, other@.len() as int)[i as int]);
                return false;
            }
            i = i + 1;
        }
        assert(other@ =~= self@.subrange(0, other@.len() as int));
        true
    }

    /// The path without needless components.
    pub fn clean(&self) -> (path: Self)
        ensures
            path@ == clean_path(self@),
    {
        proof {
            use_type_invariant(self);
            clean_steps_clean(self@);
        }
        let mut parts: Vec<String> = Vec::new();
        let mut i: usize = 0;
        assert(self@.take(0) =~= Seq::empty());
        assert(views(parts@) =~= Seq::empty());
        while i < self.parts.len()
            invariant
                i <= self.parts@.len(),
                views(parts@) == clean_steps(self@.take(i as int)),
            decreases self.parts.len() - i,
        {
            let ghost before = parts@;
            proof {
                let next = self@.take(i + 1);
                assert(next.drop_last() =~= self@.take(i as int));
                assert(next.last() == self.parts@[i as int]@);
                assert(parts@.len() > 0 ==> views(parts@).last() == parts@.last()@);
            }
            let part = self.parts[i].as_str();
            let n: usize = parts.len();
            if is_current(part) {
            } else if is_parent(part) && n > 0 && is_root(parts[n - 1].as_str()) {
            } else if is_parent(part) && n > 0 && !is_parent(parts[n - 1].as_str()) {
                parts.pop();
                assert(views(parts@) =~= views(before).drop_last());
            } else {
                parts.push(self.parts[i].clone());
                assert(views(parts@) =~= views(before).push(part@));
            }
            i = i + 1;
        }
        assert(self@.take(i as int) =~= self@);
        if parts.len() == 0 {
            proof {
                reveal_strlit(".");
                assert("."@ =~= current_part());
            }
            parts.push(".".to_owned());
            assert(views(parts@) =~= seq![current_part()]);
        }
        proof {
            let all = views(parts@);
            assert forall|k: int| 0 <= k < all.len() implies is_component(all, k) by {
                assert(clean_steps(self@).len() > 0 ==> clean_part(clean_steps(self@), k));
            }
        }
        LogicalPath { parts }
    }

    /// A relative path applied below this one.
    pub fn join_logical(&self, relative: &LogicalPath) -> (path: Self)
        ensures
            path@ == logical_join(self@, relative_parts(relative@)),
    {
        proof {
            use_type_invariant(self);
            use_type_invariant(relative);
        }
        let ghost rel = relative_parts(relative@);
        let mut parts: Vec<String> = self.clone().parts;
        let mut i: usize = 0;
        if relative.is_absolute() {
            i = 1;
        }
        let ghost start = i as int;
        assert(rel =~= relative@.skip(start));
        assert(rel.take(0) =~= Seq::empty());
        while i < relative.parts.len()
            invariant
                0 <= start <= 1,
                start <= i <= relative.parts@.len(),
                is_absolute_path(relative@) ==> start == 1,
                are_components(relative@),
                rel == relative@.skip(start),
                views(parts@) == logical_join(self@, rel.take(i - start)),
                are_components(views(parts@)),
            decreases relative.parts.len() - i,
        {
            let ghost before = views(parts@);
            let part = relative.parts[i].as_str();
            proof {
                let next = rel.take(i + 1 - start);
                assert(next.drop_last() =~= rel.take(i - start));
                assert(next.last() == part@);
                assert(is_component(relative@, i as int));
                if before.len() == 1 && before[0] == root_part() {
                    assert(before =~= seq![root_part()]);
                } else if before == seq![root_part()] {
                    assert(before.len() == 1 && before[0] == root_part());
                }
            }
            let n: usize = parts.len();
            if is_current(part) {
            } else if is_parent(part) {
                if n == 0 || (n == 1 && is_root(parts[0].as_str())) {
                } else {
                    parts.pop();
                    assert(views(parts@) =~= before.drop_last());
                }
            } else {
                parts.push(relative.parts[i].clone());
            }
            proof {
                let after = views(parts@);
                assert forall|k: int| 0 <= k < after.len() implies is_component(after, k) by {
                    if k < before.len() {
                        assert(is_component(before, k));
                    }
                }
            }
            i = i + 1;
        }
        assert(rel.take(i - start) =~= rel);
        LogicalPath { parts }
    }

    /// The path that another path names below this one.
    pub fn join(&self, other: &LogicalPath) -> (path: Self)
        ensures
            path@ == join_path(self@, other@),
    {
        proof {
            use_type_invariant(self);
            use_type_invariant(other);
        }
        if other.is_absolute() || self.parts.len() == 0 {
            return other.clone();
        }
        let mut parts: Vec<String> = self.clone().parts;
        let mut i: usize = 0;
        let ghost tail = below_path(other@);
        if other.parts.len() > 0 && is_current(other.parts[0].as_str()) {
            i = 1;
        }
        let ghost start = i as int;
        assert(tail =~= other@.skip(start));
        assert(views(parts@) =~= self@ + tail.take(0));
        while i < other.parts.len()
            invariant
                0 <= start <= i <= other.parts@.len(),
                tail == other@.skip(start),
                views(parts@) == self@ + tail.take(i - start),
            decreases other.parts.len() - i,
        {
            let ghost before = views(parts@);
            parts.push(other.parts[i].clone());
            assert(views(parts@) == before.push(tail[i - start]));
            assert(views(parts@) =~= self@ + tail.take(i + 1 - start));
            i = i + 1;
        }
        assert(tail.take(i - start) =~= tail);
        proof {
            let all = self@ + tail;
            assert forall|k: int| 0 <= k < all.len() implies is_component(all, k) by {
                if k < self@.len() {
                    assert(is_component(self@, k));
                } else {
                    assert(is_component(other@, k - self@.len() + start));
                }
            }
        }
        LogicalPath { parts }
    }

    /// The path without its last component.
    pub fn parent(&self) -> (path: Option<Self>)
        ensures
            match path {
                Some(parent) => parent_of(self@) == Some(parent@),
                None => parent_of(self@) is None,
            },
    {
        let n: usize = self.parts.len();
        if n == 0 || (n == 1 && is_root(self.parts[0].as_str())) {
            proof {
                if n == 1 {
                    assert(self@ =~= seq![root_part()]);
                }
            }
            return None;
        }
        let mut parts: Vec<String> = self.clone().parts;
        parts.pop();
        assert(views(parts@) =~= self@.drop_last());
        proof {
            use_type_invariant(self);
            if self@ == seq![root_part()] {
                assert(self@[0] == root_part());
            }
            assert forall|k: int| 0 <= k < views(parts@).len() implies is_component(
                views(parts@),
                k,
            ) by {
                assert(is_component(self@, k));
            }
        }
        Some(LogicalPath { parts })
    }
}

/// The components that a path adds below another, where `.` adds nothing.
pub open spec fn below_path(parts: Seq<Seq<char>>) -> Seq<Seq<char>> {
    if parts.len() > 0 && parts[0] == current_part() {
        parts.drop_first()
    } else {
        parts
    }
}

/// One path named below another; an absolute path stands for itself.
pub open spec fn join_path(base: Seq<Seq<char>>, other: Seq<Seq<char>>) -> Seq<Seq<char>> {
    if is_absolute_path(other) || base.len() == 0 {
        other
    } else {
        base + below_path(other)
    }
}

/// A path without its last component; the root and the empty path have none above.
pub open spec fn parent_of(parts: Seq<Seq<char>>) -> Option<Seq<Seq<char>>> {
    if parts.len() == 0 || parts == seq![root_part()] {
        None
    } else {
        Some(parts.drop_last())
    }
}

/// Whether some components precede others.
fn parts_before(first: &Vec<String>, second: &Vec<String>) -> (r: bool)
    ensures
        r == parts_less(views(first@), views(second@)),
{
    let ghost one = views(first@);
    let ghost other = views(second@);
    let mut i: usize = 0;
    assert(one.skip(0) =~= one);
    assert(other.skip(0) =~= other);
    while i < first.len() && i < second.len()
        invariant
            i <= first@.len(),
            i <= second@.len(),
            one == views(first@),
            other == views(second@),
            parts_less(one, other) == parts_less(one.skip(i as int), other.skip(i as int)),
        decreases first.len() - i,
    {
        let a = first[i].as_str();
        let b = second[i].as_str();
        proof {
            assert(one.skip(i as int)[0] == a@);
            assert(other.skip(i as int)[0] == b@);
            assert(one.skip(i as int).drop_first() =~= one.skip(i + 1));
            assert(other.skip(i as int).drop_first() =~= other.skip(i + 1));
        }
        if !same_text(a, b) {
            let x: u8 = rank_of(a);
            let y: u8 = rank_of(b);
            return x < y || (x == 3 && y == 3 && text_before(a, b));
        }
        i = i + 1;
    }
    i < second.len()
}

/// Whether one path precedes another.
pub fn path_before(first: &LogicalPath, second: &LogicalPath) -> (r: bool)
    ensures
        r == parts_less(first@, second@),
{
    parts_before(&first.parts, &second.parts)
}

impl Ranked for LogicalPath {
    open spec fn before(a: Seq<Seq<char>>, b: Seq<Seq<char>>) -> bool {
        parts_less(a, b)
    }

    proof fn before_irreflexive(a: Seq<Seq<char>>) {
        parts_less_irreflexive(a);
    }

    proof fn before_transitive(a: Seq<Seq<char>>, b: Seq<Seq<char>>, c: Seq<Seq<char>>) {
        parts_less_transitive(a, b, c);
    }

    proof fn before_total(a: Seq<Seq<char>>, b: Seq<Seq<char>>, c: Seq<Seq<char>>) {
        parts_less_total(a, c);
        if parts_less(c, a) {
            parts_less_transitive(c, a, b);
        }
    }

    fn is_before(&self, other: &Self) -> bool {
        assert(<LogicalPath as Ranked>::before(self@, other@) == parts_less(self@, other@));
        path_before(self, other)
    }
}

/// Empty segments are no components of a relative path.
pub open spec fn close_relative(parts: Seq<Seq<char>>, segment: Seq<char>) -> Seq<Seq<char>> {
    if segment.len() == 0 {
        parts
    } else {
        parts.push(segment)
    }
}

/// The components of a relative path that are complete at the end of the text, and the segment
/// that is still open there.
pub open spec fn scan_relative(text: Seq<char>) -> (Seq<Seq<char>>, Seq<char>)
    decreases text.len(),
{
    if text.len() == 0 {
        (Seq::empty(), Seq::empty())
    } else {
        let (parts, segment) = scan_relative(text.drop_last());
        if text.last() != '/' {
            (parts, segment.push(text.last()))
        } else {
            (close_relative(parts, segment), Seq::empty())
        }
    }
}

/// The components of a relative path: all that stands between separators. A separator in front
/// counts for nothing, and `.` is a component everywhere.
pub open spec fn relative_components(text: Seq<char>) -> Seq<Seq<char>> {
    close_relative(scan_relative(text).0, scan_relative(text).1)
}

/// A relative path.
#[derive(Debug)]
pub struct RelativePath {
    parts: Vec<String>,
}

impl View for RelativePath {
    type V = Seq<Seq<char>>;

    closed spec fn view(&self) -> Seq<Seq<char>> {
        views(self.parts@)
    }
}

impl RelativePath {
    /// The relative path with a text.
    pub fn parse(text: &str) -> (path: Self)
        ensures
            path@ == relative_components(text@),
    {
        let chars = chars_of(text);
        let mut parts: Vec<String> = Vec::new();
        let mut segment = String::new();
        let mut i: usize = 0;
        assert(text@.take(0) =~= Seq::empty());
        assert(views(parts@) =~= Seq::empty());
        while i < chars.len()
            invariant
                chars@ == text@,
                i <= chars@.len(),
                scan_relative(text@.take(i as int)) == (views(parts@), segment@),
            decreases chars.len() - i,
        {
            let c: char = chars[i];
            proof {
                let next = text@.take(i + 1);
                assert(next.drop_last() =~= text@.take(i as int));
                assert(next.last() == c);
            }
            if c != '/' {
                segment.push(c);
            } else {
                add_relative(&mut parts, segment);
                segment = String::new();
            }
            i = i + 1;
        }
        assert(text@.take(i as int) =~= text@);
        add_relative(&mut parts, segment);
        RelativePath { parts }
    }

    /// Whether the path is at or below another.
    pub fn starts_with(&self, other: &RelativePath) -> (r: bool)
        ensures
            r == other@.is_prefix_of(self@),
    {
        if other.parts.len() > self.parts.len() {
            return false;
        }
        let mut i: usize = 0;
        while i < other.parts.len()
            invariant
                i <= other.parts@.len() <= self.parts@.len(),
                forall|j: int| 0 <= j < i ==> #[trigger] other@[j] == self@[j],
            decreases other.parts.len() - i,
        {
            if !same_text(other.parts[i].as_str(), self.parts[i].as_str()) {
                assert(other@[i as int] != self@[i as int]);
                assert(self@.subrange(0, other@.len() as int)[i as int] == self@[i as int]);
                return false;
            }
            i = i + 1;
        }
        assert(other@ =~= self@.subrange(0, other@.len() as int));
        true
    }

    /// Whether two paths have the same components.
    pub fn same_as(&self, other: &RelativePath) -> (r: bool)
        ensures
            r == (self@ == other@),
    {
        let same = self.parts.len() == other.parts.len() && self.starts_with(other);
        if same {
            assert(self@.subrange(0, other@.len() as int) =~= self@);
        }
        proof {
            if self@ == other@ {
                assert(self@.subrange(0, other@.len() as int) =~= self@);
            }
        }
        same
    }

    /// Whether the last component is a name.
    pub fn ends_in(&self, name: &str) -> (r: bool)
        ensures
            r == (self@.len() > 0 && self@.last() == name@),
    {
        let n: usize = self.parts.len();
        n > 0 && same_text(self.parts[n - 1].as_str(), name)
    }

    /// Whether the path precedes another.
    pub fn precedes(&self, other: &RelativePath) -> (r: bool)
        ensures
            r == parts_less(self@, other@),
    {
        parts_before(&self.parts, &other.parts)
    }
}

fn add_relative(parts: &mut Vec<String>, segment: String)
    ensures
        views(final(parts)@) == close_relative(views(old(parts)@), segment@),
{
    if !segment.as_str().is_empty() {
        parts.push(segment);
        assert(views(parts@) =~= views(old(parts)@).push(segment@));
    }
}

} // verus!
