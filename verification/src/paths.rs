use vstd::prelude::*;
use vstd::string::*;

verus! {

/// The separator that is put between a directory and a name where the
/// directory shows none of its own.
pub const SEPARATOR: char = '/';

/// Whether `c` parts the components of a path.
pub open spec fn is_separator(c: char) -> bool {
    c == '/' || c == '\\'
}

/// `path` without the separators that it ends with.
pub open spec fn trimmed(path: Seq<char>) -> Seq<char>
    decreases path.len(),
{
    if path.len() > 0 && is_separator(path.last()) {
        trimmed(path.drop_last())
    } else {
        path
    }
}

/// Where the component starts that ends just before `end`: behind the last
/// separator before `end`, or at 0.
pub open spec fn component_start(path: Seq<char>, end: int) -> int
    decreases end,
{
    if end <= 0 {
        0
    } else if is_separator(path[end - 1]) {
        end
    } else {
        component_start(path, end - 1)
    }
}

/// The separator that `dir` uses: the last one in it, or `SEPARATOR`.
pub open spec fn separator_of(dir: Seq<char>) -> char
    decreases dir.len(),
{
    if dir.len() == 0 {
        SEPARATOR
    } else if is_separator(dir.last()) {
        dir.last()
    } else {
        separator_of(dir.drop_last())
    }
}

/// The directory that holds `path`: `path` without its last component. An
/// empty path and a root have none; a single name lies in the empty path.
pub open spec fn parent_of(path: Seq<char>) -> Option<Seq<char>> {
    let whole = trimmed(path);
    let start = component_start(whole, whole.len() as int);
    if whole.len() == 0 {
        None
    } else if start == 0 {
        Some(Seq::empty())
    } else if trimmed(whole.take(start)).len() == 0 {
        Some(whole.take(start))
    } else {
        Some(trimmed(whole.take(start)))
    }
}

/// The last component of `path`. An empty path, a root, and a path that
/// ends in `..` have none.
pub open spec fn file_name_of(path: Seq<char>) -> Option<Seq<char>> {
    let whole = trimmed(path);
    let name = whole.skip(component_start(whole, whole.len() as int));
    if whole.len() == 0 || name == seq!['.', '.'] {
        None
    } else {
        Some(name)
    }
}

/// `name` inside `dir`.
pub open spec fn joined(dir: Seq<char>, name: Seq<char>) -> Seq<char> {
    if dir.len() == 0 {
        name
    } else if is_separator(dir.last()) {
        dir + name
    } else {
        dir + seq![separator_of(dir)] + name
    }
}

/// Whether `path` is `base` or lies below it. Separators that `base` ends
/// with do not count: what lies below `/a` lies below `/a/` too.
pub open spec fn is_under(path: Seq<char>, base: Seq<char>) -> bool {
    let stem = trimmed(base);
    path == stem || (path.len() > stem.len() && path.take(stem.len() as int) == stem
        && is_separator(path[stem.len() as int]))
}

/// `path` with its start `from` replaced by `to`, where `path` is `from` or
/// lies below it. Separators that a base ends with do not count.
pub open spec fn rebased(path: Seq<char>, from: Seq<char>, to: Seq<char>) -> Option<Seq<char>> {
    if is_under(path, from) {
        Some(trimmed(to) + path.skip(trimmed(from).len() as int))
    } else {
        None
    }
}

/// Whether `text` ends with `suffix`.
pub open spec fn ends_with(text: Seq<char>, suffix: Seq<char>) -> bool {
    text.len() >= suffix.len() && text.skip(text.len() - suffix.len()) == suffix
}

/// Moving a path from one base to another and back gives the path again.
pub proof fn lemma_rebase_round_trip(path: Seq<char>, from: Seq<char>, to: Seq<char>)
    requires
        is_under(path, from),
    ensures
        rebased(path, from, to) is Some,
        is_under(rebased(path, from, to)->0, to),
        rebased(rebased(path, from, to)->0, to, from) == Some(path),
{
    let source = trimmed(from);
    let target = trimmed(to);
    let moved = target + path.skip(source.len() as int);
    if path == source {
        assert(path.skip(source.len() as int) =~= Seq::<char>::empty());
        assert(moved =~= target);
        assert(moved.skip(target.len() as int) =~= Seq::<char>::empty());
        assert(source + moved.skip(target.len() as int) =~= path);
    } else {
        assert(moved.take(target.len() as int) =~= target);
        assert(moved[target.len() as int] == path[source.len() as int]);
        assert(moved.skip(target.len() as int) =~= path.skip(source.len() as int));
        assert(source + path.skip(source.len() as int) =~= path) by {
            assert(path.take(source.len() as int) + path.skip(source.len() as int) =~= path);
        }
    }
}

/// A parent is shorter than the path it was taken from.
pub proof fn lemma_parent_shorter(path: Seq<char>)
    requires
        parent_of(path) is Some,
    ensures
        parent_of(path)->0.len() < path.len(),
{
    let whole = trimmed(path);
    lemma_trimmed(path);
    let start = component_start(whole, whole.len() as int);
    lemma_component_start(whole, whole.len() as int);
    if start != 0 {
        lemma_trimmed(whole.take(start));
    }
}

/// `trimmed` cuts a path down to a prefix that ends in no separator.
pub proof fn lemma_trimmed(path: Seq<char>)
    ensures
        trimmed(path).len() <= path.len(),
        trimmed(path) == path.take(trimmed(path).len() as int),
        trimmed(path).len() > 0 ==> !is_separator(trimmed(path).last()),
        forall|i: int| trimmed(path).len() <= i < path.len() ==> is_separator(#[trigger] path[i]),
    decreases path.len(),
{
    if path.len() > 0 && is_separator(path.last()) {
        lemma_trimmed(path.drop_last());
        assert(trimmed(path) =~= path.take(trimmed(path).len() as int));
        assert forall|i: int| trimmed(path).len() <= i < path.len() implies is_separator(
            #[trigger] path[i],
        ) by {
            if i < path.len() - 1 {
                assert(path.drop_last()[i] == path[i]);
            }
        }
    } else {
        assert(path =~= path.take(path.len() as int));
    }
}

/// The component that ends before `end` starts within the path, holds no
/// separator, and has one right before it unless it starts the path.
pub proof fn lemma_component_start(path: Seq<char>, end: int)
    requires
        0 <= end <= path.len(),
    ensures
        0 <= component_start(path, end) <= end,
        forall|i: int| component_start(path, end) <= i < end ==> !is_separator(#[trigger] path[i]),
        component_start(path, end) > 0 ==> is_separator(path[component_start(path, end) - 1]),
        end > 0 && !is_separator(path[end - 1]) ==> component_start(path, end) < end,
    decreases end,
{
    if end > 0 && !is_separator(path[end - 1]) {
        lemma_component_start(path, end - 1);
    }
}

/// The characters of `text`, one by one.
pub fn chars_of(text: &str) -> (chars: Vec<char>)
    ensures
        chars@ == text@,
{
    broadcast use vstd::string::group_string_axioms;

    let mut chars: Vec<char> = Vec::new();
    for c in it: text.chars()
        invariant
            it.seq() == text@,
            chars@ == it.seq().take(it.index() as int),
    {
        assert(it.seq().take(it.index() + 1) =~= it.seq().take(it.index() as int).push(c));
        chars.push(c);
    }
    assert(text@.take(text@.len() as int) =~= text@);
    chars
}

/// Whether `c` parts the components of a path.
pub fn is_separator_char(c: char) -> (r: bool)
    ensures
        r == is_separator(c),
{
    c == '/' || c == '\\'
}

/// The length of the first `end` characters without the separators that
/// they end with.
fn trimmed_len(chars: &Vec<char>, end: usize) -> (len: usize)
    requires
        end <= chars@.len(),
    ensures
        len <= end,
        chars@.take(len as int) == trimmed(chars@.take(end as int)),
{
    let mut len = end;
    while len > 0 && is_separator_char(chars[len - 1])
        invariant
            len <= end <= chars@.len(),
            trimmed(chars@.take(len as int)) == trimmed(chars@.take(end as int)),
        decreases len,
    {
        assert(chars@.take(len as int).drop_last() =~= chars@.take(len - 1));
        len -= 1;
    }
    len
}

/// Where the component starts that ends just before `end`.
fn start_of_component(chars: &Vec<char>, end: usize) -> (start: usize)
    requires
        end <= chars@.len(),
    ensures
        start == component_start(chars@, end as int),
        start <= end,
{
    let mut start = end;
    while start > 0 && !is_separator_char(chars[start - 1])
        invariant
            start <= end <= chars@.len(),
            component_start(chars@, start as int) == component_start(chars@, end as int),
        decreases start,
    {
        start -= 1;
    }
    start
}

/// The directory that holds `path`.
pub fn parent(path: &str) -> (dir: Option<String>)
    ensures
        match parent_of(path@) {
            Some(expected) => dir matches Some(given) && given@ == expected,
            None => dir is None,
        },
{
    let chars = chars_of(path);
    let len = trimmed_len(&chars, chars.len());
    proof {
        assert(chars@.take(chars@.len() as int) =~= chars@);
        lemma_trimmed(path@);
        lemma_component_start(trimmed(path@), len as int);
    }
    if len == 0 {
        return None;
    }
    let start = start_of_component(&chars, len);
    proof {
        lemma_component_is_local(chars@, len as int, len as int);
    }
    if start == 0 {
        return Some(path.substring_char(0, 0).to_owned());
    }
    let head = trimmed_len(&chars, start);
    proof {
        assert(trimmed(path@).take(start as int) =~= chars@.take(start as int));
    }
    if head == 0 {
        let dir = path.substring_char(0, start);
        assert(dir@ =~= chars@.take(start as int));
        Some(dir.to_owned())
    } else {
        let dir = path.substring_char(0, head);
        assert(dir@ =~= chars@.take(head as int));
        Some(dir.to_owned())
    }
}

/// Whether a component starts is decided by the characters before its end
/// alone.
pub proof fn lemma_component_is_local(path: Seq<char>, cut: int, end: int)
    requires
        0 <= end <= cut <= path.len(),
    ensures
        component_start(path.take(cut), end) == component_start(path, end),
    decreases end,
{
    if end > 0 && !is_separator(path[end - 1]) {
        lemma_component_is_local(path, cut, end - 1);
    }
}

/// The last component of `path`.
pub fn file_name(path: &str) -> (name: Option<String>)
    ensures
        match file_name_of(path@) {
            Some(expected) => name matches Some(given) && given@ == expected,
            None => name is None,
        },
{
    let chars = chars_of(path);
    let len = trimmed_len(&chars, chars.len());
    proof {
        assert(chars@.take(chars@.len() as int) =~= chars@);
        lemma_trimmed(path@);
    }
    if len == 0 {
        return None;
    }
    let start = start_of_component(&chars, len);
    proof {
        lemma_component_is_local(chars@, len as int, len as int);
    }
    let name = path.substring_char(start, len);
    assert(name@ =~= trimmed(path@).skip(start as int));
    if len - start == 2 && chars[start] == '.' && chars[start + 1] == '.' {
        assert(name@ =~= seq!['.', '.']);
        None
    } else {
        assert(name@ != seq!['.', '.']) by {
            if name@ == seq!['.', '.'] {
                assert(name@.len() == 2);
                assert(name@[0] == '.' && name@[1] == '.');
            }
        }
        Some(name.to_owned())
    }
}

/// The separator that the first `end` characters use.
fn separator_in(chars: &Vec<char>, end: usize) -> (sep: char)
    requires
        end <= chars@.len(),
    ensures
        sep == separator_of(chars@.take(end as int)),
{
    let mut at = end;
    while at > 0 && !is_separator_char(chars[at - 1])
        invariant
            at <= end <= chars@.len(),
            separator_of(chars@.take(at as int)) == separator_of(chars@.take(end as int)),
        decreases at,
    {
        assert(chars@.take(at as int).drop_last() =~= chars@.take(at - 1));
        at -= 1;
    }
    if at == 0 {
        SEPARATOR
    } else {
        chars[at - 1]
    }
}

/// `name` inside `dir`.
pub fn join(dir: &str, name: &str) -> (path: String)
    ensures
        path@ == joined(dir@, name@),
{
    let chars = chars_of(dir);
    let len = chars.len();
    if len == 0 {
        return name.to_owned();
    }
    let mut path = dir.to_owned();
    if !is_separator_char(chars[len - 1]) {
        let sep = separator_in(&chars, len);
        assert(chars@.take(len as int) =~= chars@);
        if sep == '\\' {
            proof {
                reveal_strlit("\\");
            }
            path.append("\\");
            assert(path@ =~= dir@ + seq![separator_of(dir@)]);
        } else {
            proof {
                reveal_strlit("/");
                lemma_separator_of(dir@);
            }
            path.append("/");
            assert(path@ =~= dir@ + seq![separator_of(dir@)]);
        }
    }
    path.append(name);
    path
}

/// The separator of a path is one of the two.
pub proof fn lemma_separator_of(dir: Seq<char>)
    ensures
        is_separator(separator_of(dir)),
    decreases dir.len(),
{
    if dir.len() > 0 && !is_separator(dir.last()) {
        lemma_separator_of(dir.drop_last());
    }
}

/// Whether `text` starts with the first `len` characters of `start`.
fn starts_with_chars(text: &Vec<char>, start: &Vec<char>, len: usize) -> (r: bool)
    requires
        len <= start@.len(),
    ensures
        r == (text@.len() >= len && text@.take(len as int) == start@.take(len as int)),
{
    if text.len() < len {
        return false;
    }
    let mut i: usize = 0;
    while i < len
        invariant
            i <= len <= text@.len(),
            len <= start@.len(),
            text@.take(i as int) == start@.take(i as int),
        decreases len - i,
    {
        if text[i] != start[i] {
            assert(text@.take(len as int)[i as int] != start@.take(len as int)[i as int]);
            return false;
        }
        assert(text@.take(i + 1) =~= text@.take(i as int).push(text@[i as int]));
        assert(start@.take(i + 1) =~= start@.take(i as int).push(start@[i as int]));
        i += 1;
    }
    true
}

/// `path` with its start `from` replaced by `to`; `None` where `path` is
/// neither `from` nor below it.
pub fn rebase(path: &str, from: &str, to: &str) -> (moved: Option<String>)
    ensures
        match rebased(path@, from@, to@) {
            Some(expected) => moved matches Some(given) && given@ == expected,
            None => moved is None,
        },
{
    let chars = chars_of(path);
    let base = chars_of(from);
    let target = chars_of(to);
    let stem = trimmed_len(&base, base.len());
    let kept = trimmed_len(&target, target.len());
    proof {
        assert(base@.take(base@.len() as int) =~= base@);
        assert(target@.take(target@.len() as int) =~= target@);
    }
    if !starts_with_chars(&chars, &base, stem) {
        assert(path@.take(path@.len() as int) =~= path@);
        return None;
    }
    if chars.len() > stem && !is_separator_char(chars[stem]) {
        return None;
    }
    proof {
        if chars@.len() == stem {
            assert(path@.take(path@.len() as int) =~= path@);
        }
    }
    let rest = path.substring_char(stem, chars.len());
    assert(rest@ =~= path@.skip(stem as int));
    let mut moved = to.substring_char(0, kept).to_owned();
    assert(moved@ =~= trimmed(to@));
    moved.append(rest);
    Some(moved)
}

/// Whether `text` ends with `suffix`.
pub fn has_suffix(text: &str, suffix: &str) -> (r: bool)
    ensures
        r == ends_with(text@, suffix@),
{
    let chars = chars_of(text);
    let tail = chars_of(suffix);
    if chars.len() < tail.len() {
        return false;
    }
    let shift = chars.len() - tail.len();
    let mut i: usize = 0;
    while i < tail.len()
        invariant
            i <= tail@.len(),
            chars@ == text@,
            tail@ == suffix@,
            shift + tail@.len() == chars@.len() <= usize::MAX,
            forall|k: int| 0 <= k < i ==> chars@[shift + k] == tail@[k],
        decreases tail@.len() - i,
    {
        if chars[shift + i] != tail[i] {
            assert(chars@.skip(shift as int)[i as int] != tail@[i as int]);
            return false;
        }
        i += 1;
    }
    assert(chars@.skip(shift as int) =~= tail@);
    true
}

/// Whether two texts hold the same characters.
pub fn same_text(a: &str, b: &str) -> (r: bool)
    ensures
        r == (a@ == b@),
{
    let left = chars_of(a);
    let right = chars_of(b);
    if left.len() != right.len() {
        return false;
    }
    let mut i: usize = 0;
    while i < left.len()
        invariant
            i <= left@.len(),
            left@ == a@,
            right@ == b@,
            left@.len() == right@.len(),
            forall|k: int| 0 <= k < i ==> left@[k] == right@[k],
        decreases left@.len() - i,
    {
        if left[i] != right[i] {
            return false;
        }
        i += 1;
    }
    assert(left@ =~= right@);
    true
}

} // verus!
