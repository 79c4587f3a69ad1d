//! Path validation with security constraints.
//!
//! Paths are handled as Unix paths: `\` is read as `/`, a path is absolute
//! when it starts with `/`, and its components are those that
//! `std::path::Path::components` yields, written as strings: `/` for the
//! root, `.` for a leading current-directory component, `..` for a parent
//! component, and the names of the others.
//!
//! What the file system knows (where a path resolves to) reaches this module
//! as a `PathResolution`, filled by the caller; every decision is made here.
use vstd::prelude::*;
use crate::error::Error;
use crate::server::error_codes::{
    default_message, is_validation_text, validation_text, ValidationError, ValidationErrorCode,
};
use crate::text::{
    extend_chars, first_index, lemma_first_index_at, lemma_first_index_none,
    lemma_first_index_props, regex_compile_error, regex_finds, regex_is_match, chars_of,
    string_of, push_chars, nat_text, push_nat_digits, contains_seq, contains_str, contains_char,
    json_quote,
};

verus! {

/// The views of character vectors.
pub open spec fn views(v: Seq<Vec<char>>) -> Seq<Seq<char>> {
    v.map_values(|x: Vec<char>| x@)
}

/// The pieces of a path between its separators, empty ones included
/// (`"/a//b"` has the pieces `""`, `"a"`, `""`, `"b"`).
pub open spec fn segments(p: Seq<char>) -> Seq<Seq<char>>
    decreases p.len(),
{
    match first_index(p, '/') {
        None => seq![p],
        Some(i) => {
            if 0 <= i < p.len() {
                seq![p.subrange(0, i)] + segments(p.subrange(i + 1, p.len() as int))
            } else {
                seq![p]
            }
        },
    }
}

/// The pieces that name components: neither empty nor `.`.
pub open spec fn keep(segs: Seq<Seq<char>>) -> Seq<Seq<char>>
    decreases segs.len(),
{
    if segs.len() == 0 {
        Seq::<Seq<char>>::empty()
    } else if segs.last() == Seq::<char>::empty() || segs.last() == "."@ {
        keep(segs.drop_last())
    } else {
        keep(segs.drop_last()).push(segs.last())
    }
}

/// The path starts at the root.
pub open spec fn is_absolute(p: Seq<char>) -> bool {
    p.len() > 0 && p[0] == '/'
}

/// The components of a path.
pub open spec fn components(p: Seq<char>) -> Seq<Seq<char>> {
    if is_absolute(p) {
        seq!["/"@] + keep(segments(p))
    } else if segments(p)[0] == "."@ {
        seq!["."@] + keep(segments(p).drop_first())
    } else {
        keep(segments(p))
    }
}

/// Splitting at the first separator.
proof fn lemma_segments_step(p: Seq<char>, i: int)
    requires
        0 <= i < p.len(),
        p[i] == '/',
        forall|j: int| 0 <= j < i ==> p[j] != '/',
    ensures
        segments(p) == seq![p.subrange(0, i)] + segments(p.subrange(i + 1, p.len() as int)),
{
    lemma_first_index_at(p, '/', i);
}

/// A path without separators is one piece.
proof fn lemma_segments_last(p: Seq<char>)
    requires
        forall|j: int| 0 <= j < p.len() ==> p[j] != '/',
    ensures
        segments(p) == seq![p],
{
    lemma_first_index_none(p, '/');
}

/// Keeping distributes over concatenation.
proof fn lemma_keep_append(a: Seq<Seq<char>>, b: Seq<Seq<char>>)
    ensures
        keep(a + b) == keep(a) + keep(b),
    decreases b.len(),
{
    if b.len() == 0 {
        assert(a + b == a);
        assert(keep(b) == Seq::<Seq<char>>::empty());
    } else {
        assert((a + b).drop_last() == a + b.drop_last());
        assert((a + b).last() == b.last());
        lemma_keep_append(a, b.drop_last());
    }
}

/// Whether a piece names a component.
fn keeps(x: &Vec<char>) -> (b: bool)
    ensures
        b == !(x@ == Seq::<char>::empty() || x@ == "."@),
{
    proof {
        reveal_strlit(".");
    }
    if x.len() == 0 {
        assert(x@ =~= Seq::<char>::empty());
        return false;
    }
    if x.len() == 1 && x[0] == '.' {
        assert(x@ == "."@);
        return false;
    }
    assert(x@ != "."@);
    true
}

/// The pieces of `p[from..]`.
fn split_segments(p: &[char], from: usize) -> (r: Vec<Vec<char>>)
    requires
        from <= p@.len(),
    ensures
        views(r@) == segments(p@.subrange(from as int, p@.len() as int)),
{
    let mut out: Vec<Vec<char>> = Vec::new();
    let mut start = from;
    let mut cur: Vec<char> = Vec::new();
    let mut i = from;
    while i < p.len()
        invariant
            from <= start <= i <= p@.len(),
            cur@ == p@.subrange(start as int, i as int),
            forall|j: int| start <= j < i ==> p@[j] != '/',
            views(out@) + segments(p@.subrange(start as int, p@.len() as int)) == segments(
                p@.subrange(from as int, p@.len() as int),
            ),
        decreases p@.len() - i,
    {
        if p[i] == '/' {
            proof {
                let rest = p@.subrange(start as int, p@.len() as int);
                assert forall|j: int| 0 <= j < i - start implies rest[j] != '/' by {
                    assert(rest[j] == p@[start + j]);
                }
                lemma_segments_step(rest, i - start);
                assert(rest.subrange(0, i - start) == cur@);
                assert(rest.subrange(i - start + 1, rest.len() as int) == p@.subrange(
                    i + 1,
                    p@.len() as int,
                ));
                assert(views(out@.push(cur)) == views(out@).push(cur@));
            }
            out.push(cur);
            cur = Vec::new();
            start = i + 1;
        } else {
            cur.push(p[i]);
            assert(cur@ == p@.subrange(start as int, i + 1));
        }
        i = i + 1;
    }
    proof {
        let rest = p@.subrange(start as int, p@.len() as int);
        assert forall|j: int| 0 <= j < rest.len() implies rest[j] != '/' by {
            assert(rest[j] == p@[start + j]);
        }
        lemma_segments_last(rest);
        assert(views(out@.push(cur)) == views(out@).push(cur@));
    }
    out.push(cur);
    out
}

/// The pieces that name components, in order.
fn keep_segments(segs: &Vec<Vec<char>>, from: usize) -> (r: Vec<Vec<char>>)
    requires
        from <= segs@.len(),
    ensures
        views(r@) == keep(views(segs@).subrange(from as int, segs@.len() as int)),
{
    let mut out: Vec<Vec<char>> = Vec::new();
    let mut i = from;
    while i < segs.len()
        invariant
            from <= i <= segs@.len(),
            views(out@) == keep(views(segs@).subrange(from as int, i as int)),
        decreases segs@.len() - i,
    {
        let ghost pre = views(segs@).subrange(from as int, i as int);
        let ghost post = views(segs@).subrange(from as int, i + 1);
        assert(post.drop_last() == pre);
        assert(post.last() == segs@[i as int]@);
        if keeps(&segs[i]) {
            let x = segs[i].clone();
            assert(x@ == segs@[i as int]@);
            assert(views(out@.push(x)) == views(out@).push(x@));
            out.push(x);
        }
        i = i + 1;
    }
    out
}

/// The components of a path (`Path::components`), as strings.
pub fn path_components(p: &[char]) -> (r: Vec<Vec<char>>)
    ensures
        views(r@) == components(p@),
{
    assert(p@.subrange(0, p@.len() as int) == p@);
    let segs = split_segments(p, 0);
    assert(views(segs@).subrange(0, segs@.len() as int) == views(segs@));
    proof {
        reveal_strlit("/");
        reveal_strlit(".");
    }
    if p.len() > 0 && p[0] == '/' {
        let kept = keep_segments(&segs, 0);
        let mut out: Vec<Vec<char>> = Vec::new();
        let mut root: Vec<char> = Vec::new();
        root.push('/');
        assert(root@ =~= "/"@);
        out.push(root);
        assert(views(out@) =~= seq!["/"@]);
        assert(views(kept@).subrange(0, 0) =~= Seq::<Seq<char>>::empty());
        let mut i: usize = 0;
        while i < kept.len()
            invariant
                i <= kept@.len(),
                views(out@) == seq!["/"@] + views(kept@).subrange(0, i as int),
            decreases kept@.len() - i,
        {
            let x = kept[i].clone();
            assert(views(out@.push(x)) == views(out@).push(x@));
            assert(views(kept@).subrange(0, i + 1) == views(kept@).subrange(0, i as int).push(
                kept@[i as int]@,
            ));
            out.push(x);
            i = i + 1;
        }
        assert(views(kept@).subrange(0, kept@.len() as int) == views(kept@));
        out
    } else {
        assert(segments(p@).len() > 0) by {
            lemma_segments_nonempty(p@);
        }
        let first_is_dot = segs[0].len() == 1 && segs[0][0] == '.';
        assert(views(segs@)[0] == segs@[0]@);
        assert(first_is_dot == (segments(p@)[0] == "."@)) by {
            if first_is_dot {
                assert(segs@[0]@ =~= "."@);
            }
            if segments(p@)[0] == "."@ {
                assert(segs@[0]@ == "."@);
                assert(segs@[0]@.len() == 1);
                assert(segs@[0]@[0] == '.');
            }
        }
        if first_is_dot {
            let kept = keep_segments(&segs, 1);
            assert(views(segs@).subrange(1, segs@.len() as int) == views(segs@).drop_first());
            let mut out: Vec<Vec<char>> = Vec::new();
            let mut root: Vec<char> = Vec::new();
            root.push('.');
            assert(root@ =~= "."@);
            out.push(root);
            assert(views(out@) =~= seq!["."@]);
            assert(views(kept@).subrange(0, 0) =~= Seq::<Seq<char>>::empty());
            let mut i: usize = 0;
            while i < kept.len()
                invariant
                    i <= kept@.len(),
                    views(out@) == seq!["."@] + views(kept@).subrange(0, i as int),
                decreases kept@.len() - i,
            {
                let x = kept[i].clone();
                assert(views(out@.push(x)) == views(out@).push(x@));
                assert(views(kept@).subrange(0, i + 1) == views(kept@).subrange(0, i as int).push(
                    kept@[i as int]@,
                ));
                out.push(x);
                i = i + 1;
            }
            assert(views(kept@).subrange(0, kept@.len() as int) == views(kept@));
            out
        } else {
            keep_segments(&segs, 0)
        }
    }
}

/// Two character vectors are equal.
pub fn chars_eq(a: &[char], b: &[char]) -> (r: bool)
    ensures
        r == (a@ == b@),
{
    if a.len() != b.len() {
        return false;
    }
    let mut i: usize = 0;
    while i < a.len()
        invariant
            a@.len() == b@.len(),
            i <= a@.len(),
            forall|j: int| 0 <= j < i ==> a@[j] == b@[j],
        decreases a@.len() - i,
    {
        if a[i] != b[i] {
            return false;
        }
        i = i + 1;
    }
    assert(a@ =~= b@);
    true
}

/// Names joined by `/`.
pub open spec fn join_names(names: Seq<Seq<char>>) -> Seq<char>
    decreases names.len(),
{
    if names.len() == 0 {
        Seq::<char>::empty()
    } else if names.len() == 1 {
        names[0]
    } else {
        join_names(names.drop_last()) + "/"@ + names.last()
    }
}

/// The text of a path given by its components.
pub open spec fn render(comps: Seq<Seq<char>>) -> Seq<char> {
    if comps.len() > 0 && comps[0] == "/"@ {
        "/"@ + join_names(comps.drop_first())
    } else {
        join_names(comps)
    }
}

/// `PathBuf::join` with a relative path: a separator is put between the two
/// unless the base is empty or already ends with one.
pub open spec fn join_path(base: Seq<char>, rel: Seq<char>) -> Seq<char> {
    if base.len() == 0 || base.last() == '/' {
        base + rel
    } else {
        base + "/"@ + rel
    }
}

/// `Path::parent`: the path without its last component, unless that is the
/// root or there is none.
pub open spec fn parent_of(p: Seq<char>) -> Option<Seq<char>> {
    let cs = components(p);
    if cs.len() == 0 || (cs.len() == 1 && cs[0] == "/"@) {
        None
    } else {
        Some(render(cs.drop_last()))
    }
}

/// `Path::file_name`: the last component when it is a name.
pub open spec fn file_name_of(p: Seq<char>) -> Option<Seq<char>> {
    let cs = components(p);
    if cs.len() == 0 || cs.last() == "/"@ || cs.last() == "."@ || cs.last() == ".."@ {
        None
    } else {
        Some(cs.last())
    }
}

/// Appends names joined by `/`.
fn push_joined_names(out: &mut Vec<char>, names: &Vec<Vec<char>>, from: usize, to: usize)
    requires
        from <= to <= names@.len(),
    ensures
        final(out)@ == old(out)@ + join_names(views(names@).subrange(from as int, to as int)),
{
    let mut i = from;
    while i < to
        invariant
            from <= i <= to <= names@.len(),
            out@ == old(out)@ + join_names(views(names@).subrange(from as int, i as int)),
        decreases to - i,
    {
        proof {
            let pre = views(names@).subrange(from as int, i as int);
            let post = views(names@).subrange(from as int, i + 1);
            assert(post.drop_last() == pre);
            assert(post.last() == names@[i as int]@);
            reveal_strlit("/");
            if i > from {
                assert(join_names(post) == join_names(pre) + "/"@ + post.last());
            } else {
                assert(pre.len() == 0);
                assert(join_names(post) == post[0]);
            }
        }
        if i > from {
            out.push('/');
            assert(seq!['/'] =~= "/"@);
        }
        crate::text::append_chars(out, names[i].as_slice());
        i = i + 1;
    }
}

/// The text of `comps[0..to]`.
fn render_components(comps: &Vec<Vec<char>>, to: usize) -> (r: Vec<char>)
    requires
        to <= comps@.len(),
    ensures
        r@ == render(views(comps@).subrange(0, to as int)),
{
    let ghost cs = views(comps@).subrange(0, to as int);
    let mut out: Vec<char> = Vec::new();
    proof {
        reveal_strlit("/");
    }
    if to > 0 && comps[0].len() == 1 && comps[0][0] == '/' {
        assert(cs[0] =~= "/"@);
        out.push('/');
        push_joined_names(&mut out, comps, 1, to);
        assert(views(comps@).subrange(1, to as int) == cs.drop_first());
        assert(out@ =~= "/"@ + join_names(cs.drop_first()));
    } else {
        assert(!(cs.len() > 0 && cs[0] == "/"@)) by {
            if cs.len() > 0 && cs[0] == "/"@ {
                assert(comps@[0]@ == "/"@);
                assert(comps@[0]@.len() == 1);
            }
        }
        push_joined_names(&mut out, comps, 0, to);
        assert(out@ =~= join_names(cs));
    }
    out
}

/// Whether a component is the root.
fn is_root_component(c: &Vec<char>) -> (b: bool)
    ensures
        b == (c@ == "/"@),
{
    proof {
        reveal_strlit("/");
    }
    if c.len() == 1 && c[0] == '/' {
        assert(c@ =~= "/"@);
        true
    } else {
        false
    }
}

/// Whether a component is `.` or `..`.
fn is_dot_component(c: &Vec<char>) -> (b: (bool, bool))
    ensures
        b.0 == (c@ == "."@),
        b.1 == (c@ == ".."@),
{
    proof {
        reveal_strlit(".");
        reveal_strlit("..");
    }
    let one = c.len() == 1 && c[0] == '.';
    let two = c.len() == 2 && c[0] == '.' && c[1] == '.';
    if one {
        assert(c@ =~= "."@);
    }
    if two {
        assert(c@ =~= ".."@);
    }
    (one, two)
}

/// The parent of a path (`Path::parent`).
pub fn parent_path(p: &str) -> (r: Option<String>)
    ensures
        match r {
            Some(s) => parent_of(p@) == Some(s@),
            None => parent_of(p@) is None,
        },
{
    let cs = chars_of(p);
    let comps = path_components(cs.as_slice());
    if comps.len() == 0 || (comps.len() == 1 && is_root_component(&comps[0])) {
        return None;
    }
    let out = render_components(&comps, comps.len() - 1);
    assert(views(comps@).subrange(0, comps@.len() - 1) == views(comps@).drop_last());
    Some(string_of(out.as_slice()))
}

/// The last name of a path (`Path::file_name`).
pub fn file_name(p: &str) -> (r: Option<String>)
    ensures
        match r {
            Some(s) => file_name_of(p@) == Some(s@),
            None => file_name_of(p@) is None,
        },
{
    let cs = chars_of(p);
    let comps = path_components(cs.as_slice());
    if comps.len() == 0 {
        return None;
    }
    let last = &comps[comps.len() - 1];
    assert(views(comps@).last() == last@);
    let (dot, dotdot) = is_dot_component(last);
    if is_root_component(last) || dot || dotdot {
        return None;
    }
    Some(string_of(last.as_slice()))
}

/// Joins a relative path onto a base (`Path::join`).
pub fn join_path_text(base: &str, rel: &str) -> (r: String)
    ensures
        r@ == join_path(base@, rel@),
{
    let mut v = chars_of(base);
    proof {
        reveal_strlit("/");
    }
    if v.len() == 0 || v[v.len() - 1] == '/' {
        crate::text::extend_chars(&mut v, rel);
    } else {
        v.push('/');
        assert(seq!['/'] =~= "/"@);
        crate::text::extend_chars(&mut v, rel);
    }
    assert(v@ =~= join_path(base@, rel@));
    string_of(v.as_slice())
}

/// The lexical normalisation of a path's components: the root, the names
/// left after each `..` has removed the name before it, or `None` when a
/// `..` has nothing left to remove.
pub open spec fn normalized(cs: Seq<Seq<char>>) -> Option<(bool, Seq<Seq<char>>)>
    decreases cs.len(),
{
    if cs.len() == 0 {
        Some((false, Seq::<Seq<char>>::empty()))
    } else {
        match normalized(cs.drop_last()) {
            None => None,
            Some((rooted, names)) => {
                let c = cs.last();
                if c == "/"@ {
                    Some((true, Seq::<Seq<char>>::empty()))
                } else if c == "."@ {
                    Some((rooted, names))
                } else if c == ".."@ {
                    if names.len() == 0 {
                        None
                    } else {
                        Some((rooted, names.drop_last()))
                    }
                } else {
                    Some((rooted, names.push(c)))
                }
            },
        }
    }
}

/// The text of a normalised path.
pub open spec fn normalized_text(rooted: bool, names: Seq<Seq<char>>) -> Seq<char> {
    if rooted {
        "/"@ + join_names(names)
    } else {
        join_names(names)
    }
}

/// The error text of a path check.
pub open spec fn path_error(
    code: ValidationErrorCode,
    message: Option<Seq<char>>,
    expected: Option<Seq<char>>,
) -> Seq<char> {
    validation_text(
        code,
        "path"@,
        match message {
            Some(m) => m,
            None => default_message(code, "path"@),
        },
        expected,
        None,
        None,
    )
}

/// What normalising a path without the file system gives.
pub open spec fn normalize_spec(p: Seq<char>) -> Result<Seq<char>, Seq<char>> {
    match normalized(components(p)) {
        Some((rooted, names)) => Ok(normalized_text(rooted, names)),
        None => Err(
            path_error(
                ValidationErrorCode::SecurityViolation,
                Some("Path escapes root with too many '..' components"@),
                None,
            ),
        ),
    }
}

/// The result matches a specified outcome; errors by their JSON text.
pub open spec fn matches_outcome(r: Result<String, Error>, o: Result<Seq<char>, Seq<char>>) -> bool {
    match o {
        Ok(s) => r matches Ok(x) && x@ == s,
        Err(t) => r matches Err(e) && is_validation_text(e, t),
    }
}

/// Normalise a path without resolving symbolic links: `.` components are
/// dropped and each `..` removes the name before it.
pub fn normalize_path(p: &str) -> (r: Result<String, Error>)
    ensures
        matches_outcome(r, normalize_spec(p@)),
{
    let cs = chars_of(p);
    let comps = path_components(cs.as_slice());
    let mut rooted = false;
    let mut names: Vec<Vec<char>> = Vec::new();
    let mut i: usize = 0;
    while i < comps.len()
        invariant
            i <= comps@.len(),
            views(comps@) == components(p@),
            normalized(views(comps@).subrange(0, i as int)) == Some((rooted, views(names@))),
        decreases comps@.len() - i,
    {
        let ghost pre = views(comps@).subrange(0, i as int);
        let ghost post = views(comps@).subrange(0, i + 1);
        assert(post.drop_last() == pre);
        assert(post.last() == comps@[i as int]@);
        let c = &comps[i];
        let (dot, dotdot) = is_dot_component(c);
        if is_root_component(c) {
            rooted = true;
            names = Vec::new();
            assert(views(names@) =~= Seq::<Seq<char>>::empty());
        } else if dot {
        } else if dotdot {
            if names.len() == 0 {
                proof {
                    assert forall|k: int| i + 1 <= k <= comps@.len() implies normalized(
                        views(comps@).subrange(0, k),
                    ) is None by {
                        lemma_normalized_stays_none(views(comps@), i + 1, k);
                    }
                    assert(views(comps@).subrange(0, comps@.len() as int) == views(comps@));
                }
                let e = ValidationError::new(ValidationErrorCode::SecurityViolation, "path").message(
                    "Path escapes root with too many '..' components",
                ).to_error();
                return Err(e);
            }
            let ghost before = views(names@);
            names.pop();
            assert(views(names@) == before.drop_last());
        } else {
            let x = c.clone();
            assert(views(names@.push(x)) == views(names@).push(x@));
            names.push(x);
        }
        i = i + 1;
    }
    assert(views(comps@).subrange(0, comps@.len() as int) == views(comps@));
    let mut out: Vec<char> = Vec::new();
    proof {
        reveal_strlit("/");
    }
    if rooted {
        out.push('/');
    }
    push_joined_names(&mut out, &names, 0, names.len());
    assert(views(names@).subrange(0, names@.len() as int) == views(names@));
    assert(out@ =~= normalized_text(rooted, views(names@)));
    Ok(string_of(out.as_slice()))
}

/// Once normalisation fails it stays failed.
proof fn lemma_normalized_stays_none(cs: Seq<Seq<char>>, i: int, k: int)
    requires
        0 <= i <= k <= cs.len(),
        normalized(cs.subrange(0, i)) is None,
    ensures
        normalized(cs.subrange(0, k)) is None,
    decreases k - i,
{
    if k > i {
        lemma_normalized_stays_none(cs, i, k - 1);
        assert(cs.subrange(0, k).drop_last() == cs.subrange(0, k - 1));
    }
}

/// Configuration for path validation
#[derive(Debug, Clone)]
pub struct PathValidationConfig {
    /// Base directory that paths must be confined to
    pub base_dir: String,
    /// Whether to resolve symlinks (default: true)
    pub resolve_symlinks: bool,
    /// Whether to allow relative paths (default: false)
    pub allow_relative: bool,
    /// Whether to allow hidden files/dirs (starting with .)
    pub allow_hidden: bool,
    /// Maximum path depth from `base_dir` (default: None = unlimited)
    pub max_depth: Option<usize>,
    /// Blocked path patterns (e.g., `["*.exe", "*.dll"]`)
    pub blocked_patterns: Vec<String>,
}

impl PathValidationConfig {
    /// Create a new configuration with a base directory
    pub fn new(base_dir: &str) -> (c: PathValidationConfig)
        ensures
            c.base_dir@ == base_dir@,
            c.resolve_symlinks,
            !c.allow_relative,
            !c.allow_hidden,
            c.max_depth is None,
            c.blocked_patterns@.len() == 0,
    {
        PathValidationConfig {
            base_dir: base_dir.to_owned(),
            resolve_symlinks: true,
            allow_relative: false,
            allow_hidden: false,
            max_depth: None,
            blocked_patterns: Vec::new(),
        }
    }

    /// Allow relative paths
    pub fn allow_relative(self, allow: bool) -> (c: PathValidationConfig)
        ensures
            c == (PathValidationConfig { allow_relative: allow, ..self }),
    {
        PathValidationConfig { allow_relative: allow, ..self }
    }

    /// Allow hidden files and directories
    pub fn allow_hidden(self, allow: bool) -> (c: PathValidationConfig)
        ensures
            c == (PathValidationConfig { allow_hidden: allow, ..self }),
    {
        PathValidationConfig { allow_hidden: allow, ..self }
    }

    /// Set maximum path depth
    pub fn max_depth(self, depth: usize) -> (c: PathValidationConfig)
        ensures
            c == (PathValidationConfig { max_depth: Some(depth), ..self }),
    {
        PathValidationConfig { max_depth: Some(depth), ..self }
    }

    /// Set the blocked patterns
    pub fn block_patterns(self, patterns: Vec<String>) -> (c: PathValidationConfig)
        ensures
            c == (PathValidationConfig { blocked_patterns: patterns, ..self }),
    {
        PathValidationConfig { blocked_patterns: patterns, ..self }
    }
}

/// The configuration of a secure validator for `base`: no relative paths,
/// no hidden files, and executables and libraries blocked.
pub open spec fn is_secure_config(c: PathValidationConfig, base: Seq<char>) -> bool {
    &&& c.base_dir@ == base
    &&& c.resolve_symlinks
    &&& !c.allow_relative
    &&& !c.allow_hidden
    &&& c.max_depth is None
    &&& c.blocked_patterns@.len() == 4
    &&& c.blocked_patterns@[0]@ == "*.exe"@
    &&& c.blocked_patterns@[1]@ == "*.dll"@
    &&& c.blocked_patterns@[2]@ == "*.so"@
    &&& c.blocked_patterns@[3]@ == "*.dylib"@
}

/// The configuration of a secure validator for a directory: no relative
/// paths, no hidden files, and executables and libraries blocked.
pub fn secure_path_config(base_dir: &str) -> (c: PathValidationConfig)
    ensures
        is_secure_config(c, base_dir@),
{
    let mut patterns: Vec<String> = Vec::new();
    patterns.push("*.exe".to_owned());
    patterns.push("*.dll".to_owned());
    patterns.push("*.so".to_owned());
    patterns.push("*.dylib".to_owned());
    PathValidationConfig::new(base_dir).allow_relative(false).allow_hidden(false).block_patterns(
        patterns,
    )
}

/// A validator for paths under `base_dir` with the secure configuration;
/// it takes a path and what the file system answered for it.
pub fn secure_path_validator(base_dir: &str) -> (f: impl Fn(&str, &PathResolution) -> Result<String, Error>)
    ensures
        forall|path: &str, res: &PathResolution| #[trigger] call_requires(f, (path, res)),
        exists|c: PathValidationConfig|
            is_secure_config(c, base_dir@) && forall|path: &str, res: &PathResolution, r: Result<String, Error>|
                #[trigger] call_ensures(f, (path, res), r) ==> matches_outcome(
                    r,
                    validate_spec(path@, c, *res),
                ),
{
    let config = secure_path_config(base_dir);
    let cfg: Ghost<PathValidationConfig> = Ghost(config);
    let f = move |path: &str, res: &PathResolution| -> (r: Result<String, Error>)
        ensures
            matches_outcome(r, validate_spec(path@, cfg@, *res)),
        { validate_path(path, &config, res) };
    assert(is_secure_config(cfg@, base_dir@));
    assert forall|path: &str, res: &PathResolution| #[trigger] call_requires(f, (path, res)) by {}
    f
}

/// Backslashes read as forward slashes.
pub open spec fn unix_separators(p: Seq<char>) -> Seq<char> {
    p.map_values(|c: char| if c == '\\' { '/' } else { c })
}

/// Normalize path separators: backslashes become forward slashes.
pub fn normalize_path_separators(path: &str) -> (r: String)
    ensures
        r@ == unix_separators(path@),
{
    let cs = chars_of(path);
    let mut out: Vec<char> = Vec::new();
    let mut i: usize = 0;
    while i < cs.len()
        invariant
            cs@ == path@,
            i <= cs@.len(),
            out@ == unix_separators(cs@.subrange(0, i as int)),
        decreases cs@.len() - i,
    {
        let c = cs[i];
        out.push(if c == '\\' { '/' } else { c });
        assert(unix_separators(cs@.subrange(0, i + 1)) =~= unix_separators(
            cs@.subrange(0, i as int),
        ).push(if c == '\\' { '/' } else { c }));
        i = i + 1;
    }
    assert(cs@.subrange(0, cs@.len() as int) == cs@);
    string_of(out.as_slice())
}

/// The path that is to be resolved: checks that need no file system, then
/// the relative path joined onto the base directory.
pub open spec fn prepare_spec(path: Seq<char>, config: PathValidationConfig) -> Result<
    Seq<char>,
    Seq<char>,
> {
    if path.len() == 0 {
        Err(path_error(ValidationErrorCode::MissingField, None, Some("Non-empty path"@)))
    } else if path.contains('\0') {
        Err(
            path_error(
                ValidationErrorCode::SecurityViolation,
                Some("Path contains null bytes"@),
                None,
            ),
        )
    } else {
        let p = unix_separators(path);
        if contains_seq(p, ".."@) && !config.allow_relative {
            Err(
                path_error(
                    ValidationErrorCode::SecurityViolation,
                    Some("Path traversal detected (.. not allowed)"@),
                    None,
                ),
            )
        } else if !is_absolute(p) {
            if !config.allow_relative {
                Err(
                    path_error(
                        ValidationErrorCode::SecurityViolation,
                        Some("Relative paths not allowed"@),
                        Some("Absolute path"@),
                    ),
                )
            } else {
                Ok(join_path(config.base_dir@, p))
            }
        } else {
            Ok(p)
        }
    }
}

/// The checks that need no file system; on success, the path to resolve.
pub fn prepare_path(path: &str, config: &PathValidationConfig) -> (r: Result<String, Error>)
    ensures
        matches_outcome(r, prepare_spec(path@, *config)),
{
    let cs = chars_of(path);
    if cs.len() == 0 {
        return Err(
            ValidationError::new(ValidationErrorCode::MissingField, "path").expected(
                "Non-empty path",
            ).to_error(),
        );
    }
    if contains_char(cs.as_slice(), '\0') {
        return Err(
            ValidationError::new(ValidationErrorCode::SecurityViolation, "path").message(
                "Path contains null bytes",
            ).to_error(),
        );
    }
    let p = normalize_path_separators(path);
    let pcs = chars_of(p.as_str());
    if contains_str(pcs.as_slice(), "..") && !config.allow_relative {
        return Err(
            ValidationError::new(ValidationErrorCode::SecurityViolation, "path").message(
                "Path traversal detected (.. not allowed)",
            ).to_error(),
        );
    }
    if !(pcs.len() > 0 && pcs[0] == '/') {
        if !config.allow_relative {
            return Err(
                ValidationError::new(ValidationErrorCode::SecurityViolation, "path").message(
                    "Relative paths not allowed",
                ).expected("Absolute path").to_error(),
            );
        }
        return Ok(join_path_text(config.base_dir.as_str(), p.as_str()));
    }
    Ok(p)
}

/// A failed file-system call: whether it failed for want of the file, and
/// the text of its error.
#[derive(Debug, Clone)]
pub struct IoFailure {
    /// The error kind was `NotFound`
    pub not_found: bool,
    /// The error's text
    pub message: String,
}

/// What the file system answered about a prepared path.
#[derive(Debug)]
pub struct PathResolution {
    /// `canonicalize` of the prepared path
    pub canonical: Result<String, IoFailure>,
    /// `canonicalize` of its parent, where it has one
    pub canonical_parent: Result<String, IoFailure>,
    /// `canonicalize` of the base directory
    pub canonical_base: Result<String, IoFailure>,
}

/// Where the prepared path resolves to.
pub open spec fn resolve_spec(
    p: Seq<char>,
    config: PathValidationConfig,
    res: PathResolution,
) -> Result<Seq<char>, Seq<char>> {
    if config.resolve_symlinks {
        match res.canonical {
            Ok(c) => Ok(c@),
            Err(f) => {
                if f.not_found {
                    match parent_of(p) {
                        Some(_) => match res.canonical_parent {
                            Ok(cp) => match file_name_of(p) {
                                Some(n) => Ok(join_path(cp@, n)),
                                None => Err(
                                    path_error(
                                        ValidationErrorCode::InvalidFormat,
                                        Some("Invalid path format: "@ + f.message@),
                                        None,
                                    ),
                                ),
                            },
                            Err(_) => Err(
                                path_error(
                                    ValidationErrorCode::InvalidFormat,
                                    Some("Cannot resolve parent directory: "@ + f.message@),
                                    None,
                                ),
                            ),
                        },
                        None => Err(
                            path_error(
                                ValidationErrorCode::InvalidFormat,
                                Some("Path has no parent directory"@),
                                None,
                            ),
                        ),
                    }
                } else {
                    Err(
                        path_error(
                            ValidationErrorCode::InvalidFormat,
                            Some("Cannot canonicalize path: "@ + f.message@),
                            None,
                        ),
                    )
                }
            },
        }
    } else {
        normalize_spec(p)
    }
}

/// An error of the path checks with a message.
fn path_message_error(code: ValidationErrorCode, prefix: &str, detail: &str) -> (e: Error)
    ensures
        is_validation_text(e, path_error(code, Some(prefix@ + detail@), None)),
{
    let mut m: Vec<char> = Vec::new();
    extend_chars(&mut m, prefix);
    extend_chars(&mut m, detail);
    let msg = string_of(m.as_slice());
    ValidationError::new(code, "path").message(msg.as_str()).to_error()
}

/// Where the prepared path resolves to, from the file system's answers.
pub fn resolve_path(p: &str, config: &PathValidationConfig, res: &PathResolution) -> (r: Result<
    String,
    Error,
>)
    ensures
        matches_outcome(r, resolve_spec(p@, *config, *res)),
{
    if !config.resolve_symlinks {
        return normalize_path(p);
    }
    proof {
        reveal_strlit("");
        assert("Path has no parent directory"@ + ""@ =~= "Path has no parent directory"@);
    }
    match &res.canonical {
        Ok(c) => Ok(c.clone()),
        Err(f) => {
            if f.not_found {
                match parent_path(p) {
                    Some(_) => match &res.canonical_parent {
                        Ok(cp) => match file_name(p) {
                            Some(n) => Ok(join_path_text(cp.as_str(), n.as_str())),
                            None => Err(
                                path_message_error(
                                    ValidationErrorCode::InvalidFormat,
                                    "Invalid path format: ",
                                    f.message.as_str(),
                                ),
                            ),
                        },
                        Err(_) => Err(
                            path_message_error(
                                ValidationErrorCode::InvalidFormat,
                                "Cannot resolve parent directory: ",
                                f.message.as_str(),
                            ),
                        ),
                    },
                    None => Err(
                        path_message_error(
                            ValidationErrorCode::InvalidFormat,
                            "Path has no parent directory",
                            "",
                        ),
                    ),
                }
            } else {
                Err(
                    path_message_error(
                        ValidationErrorCode::InvalidFormat,
                        "Cannot canonicalize path: ",
                        f.message.as_str(),
                    ),
                )
            }
        },
    }
}

/// How one pattern character reads in a regular expression: `.` literally,
/// `*` as any run of characters, `?` as any character.
pub open spec fn glob_char_regex(c: char) -> Seq<char> {
    if c == '.' {
        seq!['\\', '.']
    } else if c == '*' {
        seq!['.', '*']
    } else if c == '?' {
        seq!['.']
    } else {
        seq![c]
    }
}

/// The body of the regular expression of a glob pattern.
pub open spec fn glob_body(pattern: Seq<char>) -> Seq<char>
    decreases pattern.len(),
{
    if pattern.len() == 0 {
        Seq::<char>::empty()
    } else {
        glob_body(pattern.drop_last()) + glob_char_regex(pattern.last())
    }
}

/// The anchored regular expression of a glob pattern.
pub open spec fn glob_regex(pattern: Seq<char>) -> Seq<char> {
    seq!['^'] + glob_body(pattern) + seq!['$']
}

/// A glob pattern matches a text: its expression compiles and matches.
pub open spec fn glob_matches(pattern: Seq<char>, text: Seq<char>) -> bool {
    regex_compile_error(glob_regex(pattern)) is None && regex_finds(glob_regex(pattern), text)
}

/// Simple glob matching with `*` and `?`, through a regular expression;
/// a pattern whose expression does not compile matches nothing.
pub fn glob_match(pattern: &str, text: &str) -> (b: bool)
    ensures
        b == glob_matches(pattern@, text@),
{
    let pc = chars_of(pattern);
    let mut rx: Vec<char> = Vec::new();
    rx.push('^');
    let mut i: usize = 0;
    while i < pc.len()
        invariant
            pc@ == pattern@,
            i <= pc@.len(),
            rx@ == seq!['^'] + glob_body(pc@.subrange(0, i as int)),
        decreases pc@.len() - i,
    {
        let c = pc[i];
        assert(pc@.subrange(0, i + 1).drop_last() == pc@.subrange(0, i as int));
        if c == '.' {
            rx.push('\\');
            rx.push('.');
        } else if c == '*' {
            rx.push('.');
            rx.push('*');
        } else if c == '?' {
            rx.push('.');
        } else {
            rx.push(c);
        }
        assert(rx@ =~= seq!['^'] + glob_body(pc@.subrange(0, i + 1)));
        i = i + 1;
    }
    rx.push('$');
    assert(pc@.subrange(0, pc@.len() as int) == pc@);
    assert(rx@ =~= glob_regex(pattern@));
    let rxs = string_of(rx.as_slice());
    match regex_is_match(rxs.as_str(), text) {
        Ok(b) => b,
        Err(_) => false,
    }
}

/// The views of strings.
pub open spec fn string_views(v: Seq<String>) -> Seq<Seq<char>> {
    v.map_values(|x: String| x@)
}

/// The first blocked pattern that matches the text, by index.
pub open spec fn first_blocked(patterns: Seq<Seq<char>>, text: Seq<char>) -> Option<int>
    decreases patterns.len(),
{
    if patterns.len() == 0 {
        None
    } else if glob_matches(patterns[0], text) {
        Some(0)
    } else {
        match first_blocked(patterns.drop_first(), text) {
            Some(i) => Some(i + 1),
            None => None,
        }
    }
}

/// A component names a hidden file or directory.
pub open spec fn is_hidden_name(c: Seq<char>) -> bool {
    c.len() > 0 && c[0] == '.' && c != "."@ && c != ".."@
}

/// Some component names a hidden file or directory.
pub open spec fn has_hidden(cs: Seq<Seq<char>>) -> bool {
    exists|i: int| 0 <= i < cs.len() && is_hidden_name(#[trigger] cs[i])
}

/// The checks on a resolved path against the resolved base directory.
pub open spec fn confine_spec(cp: Seq<char>, base: Seq<char>, config: PathValidationConfig) -> Result<
    Seq<char>,
    Seq<char>,
> {
    let pc = components(cp);
    let bc = components(base);
    if !crate::text::has_prefix(pc, bc) {
        Err(
            path_error(
                ValidationErrorCode::SecurityViolation,
                Some("Path escapes base directory. Path must be under: "@ + base),
                None,
            ),
        )
    } else if !config.allow_hidden && has_hidden(pc) {
        Err(
            path_error(
                ValidationErrorCode::NotAllowed,
                Some("Hidden files/directories not allowed"@),
                None,
            ),
        )
    } else if config.max_depth is Some && pc.len() - bc.len() > config.max_depth->0 {
        Err(
            path_error(
                ValidationErrorCode::OutOfRange,
                Some(
                    "Path depth "@ + nat_text((pc.len() - bc.len()) as nat) + " exceeds maximum "@
                        + nat_text(config.max_depth->0 as nat),
                ),
                None,
            ),
        )
    } else {
        match first_blocked(string_views(config.blocked_patterns@), cp) {
            Some(i) => Err(
                path_error(
                    ValidationErrorCode::NotAllowed,
                    Some(
                        "Path matches blocked pattern: "@ + string_views(
                            config.blocked_patterns@,
                        )[i],
                    ),
                    None,
                ),
            ),
            None => Ok(cp),
        }
    }
}

/// The first matching pattern is found by a scan.
proof fn lemma_first_blocked_scan(patterns: Seq<Seq<char>>, text: Seq<char>, i: int)
    requires
        0 <= i <= patterns.len(),
        forall|j: int| 0 <= j < i ==> !glob_matches(#[trigger] patterns[j], text),
    ensures
        i < patterns.len() && glob_matches(patterns[i], text) ==> first_blocked(patterns, text)
            == Some(i),
        i == patterns.len() ==> first_blocked(patterns, text) is None,
    decreases i,
{
    if i > 0 {
        let rest = patterns.drop_first();
        assert forall|j: int| 0 <= j < i - 1 implies !glob_matches(#[trigger] rest[j], text) by {
            assert(rest[j] == patterns[j + 1]);
        }
        lemma_first_blocked_scan(rest, text, i - 1);
        if i < patterns.len() {
            assert(rest[i - 1] == patterns[i]);
        }
        assert(!glob_matches(patterns[0], text));
    } else if patterns.len() > 0 {
    }
}

/// The checks on a resolved path against the resolved base directory.
#[verifier::loop_isolation(false)]
pub fn confine_path(cp: &str, base: &str, config: &PathValidationConfig) -> (r: Result<
    String,
    Error,
>)
    ensures
        matches_outcome(r, confine_spec(cp@, base@, *config)),
{
    let cpv = chars_of(cp);
    let bv = chars_of(base);
    let pc = path_components(cpv.as_slice());
    let bc = path_components(bv.as_slice());
    // Confinement: the base's components begin the path's components.
    let mut under = bc.len() <= pc.len();
    if under {
        let mut i: usize = 0;
        while i < bc.len()
            invariant
                bc@.len() <= pc@.len(),
                i <= bc@.len(),
                under ==> forall|j: int| 0 <= j < i ==> pc@[j]@ == bc@[j]@,
                !under ==> !crate::text::has_prefix(views(pc@), views(bc@)),
            decreases bc@.len() - i,
        {
            if !chars_eq(pc[i].as_slice(), bc[i].as_slice()) {
                assert(views(pc@).subrange(0, views(bc@).len() as int)[i as int] == pc@[i as int]@);
                under = false;
            }
            i = i + 1;
        }
        if under {
            assert(views(pc@).subrange(0, views(bc@).len() as int) =~= views(bc@));
        }
    }
    if !under {
        return Err(
            path_message_error(
                ValidationErrorCode::SecurityViolation,
                "Path escapes base directory. Path must be under: ",
                base,
            ),
        );
    }
    // Hidden names.

    if !config.allow_hidden {
        let mut i: usize = 0;
        while i < pc.len()
            invariant
                i <= pc@.len(),
                forall|j: int| 0 <= j < i ==> !is_hidden_name(#[trigger] views(pc@)[j]),
            decreases pc@.len() - i,
        {
            let c = &pc[i];
            let (dot, dotdot) = is_dot_component(c);
            assert(views(pc@)[i as int] == c@);
            if c.len() > 0 && c[0] == '.' && !dot && !dotdot {
                assert(is_hidden_name(views(pc@)[i as int]));
                assert(has_hidden(components(cp@)));
                return Err(
                    ValidationError::new(ValidationErrorCode::NotAllowed, "path").message(
                        "Hidden files/directories not allowed",
                    ).to_error(),
                );
            }
            i = i + 1;
        }
        assert(!has_hidden(components(cp@)));
    }
    // Depth below the base.

    if let Some(max_depth) = config.max_depth {
        let depth = pc.len() - bc.len();
        if depth > max_depth {
            let mut m: Vec<char> = Vec::new();
            extend_chars(&mut m, "Path depth ");
            push_nat_digits(&mut m, depth as u64);
            extend_chars(&mut m, " exceeds maximum ");
            push_nat_digits(&mut m, max_depth as u64);
            let msg = string_of(m.as_slice());
            return Err(
                ValidationError::new(ValidationErrorCode::OutOfRange, "path").message(
                    msg.as_str(),
                ).to_error(),
            );
        }
    }
    // Blocked patterns.

    let mut k: usize = 0;
    while k < config.blocked_patterns.len()
        invariant
            k <= config.blocked_patterns@.len(),
            forall|j: int|
                0 <= j < k ==> !glob_matches(
                    #[trigger] string_views(config.blocked_patterns@)[j],
                    cp@,
                ),
        decreases config.blocked_patterns@.len() - k,
    {
        let pat = &config.blocked_patterns[k];
        assert(string_views(config.blocked_patterns@)[k as int] == pat@);
        if glob_match(pat.as_str(), cp) {
            proof {
                lemma_first_blocked_scan(string_views(config.blocked_patterns@), cp@, k as int);
                assert(first_blocked(string_views(config.blocked_patterns@), cp@) == Some(k as int));
            }
            return Err(
                path_message_error(
                    ValidationErrorCode::NotAllowed,
                    "Path matches blocked pattern: ",
                    pat.as_str(),
                ),
            );
        }
        k = k + 1;
    }
    proof {
        lemma_first_blocked_scan(string_views(config.blocked_patterns@), cp@, k as int);
    }
    Ok(cp.to_owned())
}

/// The base directory as resolved, or as configured when it did not resolve.
pub open spec fn base_spec(config: PathValidationConfig, res: PathResolution) -> Seq<char> {
    match res.canonical_base {
        Ok(b) => b@,
        Err(_) => config.base_dir@,
    }
}

/// What validating a path gives: the checks on the text, the resolution,
/// and the checks against the base directory, in that order.
pub open spec fn validate_spec(path: Seq<char>, config: PathValidationConfig, res: PathResolution) -> Result<
    Seq<char>,
    Seq<char>,
> {
    match prepare_spec(path, config) {
        Err(e) => Err(e),
        Ok(p) => match resolve_spec(p, config, res) {
            Err(e) => Err(e),
            Ok(cp) => confine_spec(cp, base_spec(config, res), config),
        },
    }
}

/// Validate a path with robust security checks. `res` holds what the file
/// system answered for the path that `prepare_path` gives, for its parent
/// and for the base directory.
pub fn validate_path(path: &str, config: &PathValidationConfig, res: &PathResolution) -> (r: Result<
    String,
    Error,
>)
    ensures
        matches_outcome(r, validate_spec(path@, *config, *res)),
{
    let p = match prepare_path(path, config) {
        Ok(p) => p,
        Err(e) => return Err(e),
    };
    let cp = match resolve_path(p.as_str(), config, res) {
        Ok(cp) => cp,
        Err(e) => return Err(e),
    };
    let base = match &res.canonical_base {
        Ok(b) => b.as_str(),
        Err(_) => config.base_dir.as_str(),
    };
    confine_path(cp.as_str(), base, config)
}

/// A path has at least one piece.
proof fn lemma_segments_nonempty(p: Seq<char>)
    ensures
        segments(p).len() > 0,
{
    lemma_first_index_props(p, '/');
}

/// Normalising leaves no `.`, `..` or root marker among the names.
pub proof fn lemma_normalized_names_plain(cs: Seq<Seq<char>>)
    ensures
        normalized(cs) matches Some((rooted, names)) ==> forall|i: int|
            0 <= i < names.len() ==> #[trigger] names[i] != "."@ && names[i] != ".."@ && names[i]
                != "/"@,
    decreases cs.len(),
{
    if cs.len() > 0 {
        lemma_normalized_names_plain(cs.drop_last());
        match normalized(cs.drop_last()) {
            None => {},
            Some((rooted, names)) => {
                let c = cs.last();
                if c != "/"@ && c != "."@ && c != ".."@ {
                    assert forall|i: int| 0 <= i < names.push(c).len() implies #[trigger] names.push(
                        c,
                    )[i] != "."@ && names.push(c)[i] != ".."@ && names.push(c)[i] != "/"@ by {
                        if i < names.len() {
                            assert(names.push(c)[i] == names[i]);
                        }
                    }
                } else if c == ".."@ && names.len() > 0 {
                    assert forall|i: int| 0 <= i < names.drop_last().len() implies #[trigger] names.drop_last()[i]
                        != "."@ && names.drop_last()[i] != ".."@ && names.drop_last()[i] != "/"@ by {
                        assert(names.drop_last()[i] == names[i]);
                    }
                }
            },
        }
    }
}

/// A validated path lies under the base directory, names no hidden file
/// when those are not allowed, stays within the depth limit, and matches
/// no blocked pattern.
pub proof fn lemma_validated_path_is_confined(
    path: Seq<char>,
    config: PathValidationConfig,
    res: PathResolution,
)
    ensures
        validate_spec(path, config, res) matches Ok(cp) ==> {
            let pc = components(cp);
            let bc = components(base_spec(config, res));
            &&& crate::text::has_prefix(pc, bc)
            &&& !config.allow_hidden ==> !has_hidden(pc)
            &&& config.max_depth matches Some(d) ==> pc.len() - bc.len() <= d
            &&& first_blocked(string_views(config.blocked_patterns@), cp) is None
        },
{
}

/// When relative paths are not allowed, a path that contains `..` is
/// refused, whatever the file system answers.
pub proof fn lemma_traversal_refused(path: Seq<char>, config: PathValidationConfig, res: PathResolution)
    requires
        !config.allow_relative,
        contains_seq(unix_separators(path), ".."@),
    ensures
        validate_spec(path, config, res) is Err,
{
}

/// When relative paths are not allowed, only absolute paths are accepted.
pub proof fn lemma_relative_refused(path: Seq<char>, config: PathValidationConfig, res: PathResolution)
    requires
        !config.allow_relative,
        !is_absolute(unix_separators(path)),
    ensures
        validate_spec(path, config, res) is Err,
{
}


/// A name in a path: not empty, and without a separator.
pub open spec fn is_name(x: Seq<char>) -> bool {
    x.len() > 0 && forall|j: int| 0 <= j < x.len() ==> x[j] != '/'
}

/// The pieces of a path hold no separator.
proof fn lemma_segments_no_sep(p: Seq<char>)
    ensures
        forall|i: int, j: int|
            0 <= i < segments(p).len() && 0 <= j < segments(p)[i].len() ==> #[trigger] segments(p)[i][j]
                != '/',
    decreases p.len(),
{
    lemma_first_index_props(p, '/');
    match first_index(p, '/') {
        None => {},
        Some(i) => {
            let rest = p.subrange(i + 1, p.len() as int);
            lemma_segments_no_sep(rest);
            let s = seq![p.subrange(0, i)] + segments(rest);
            assert forall|a: int, j: int| 0 <= a < s.len() && 0 <= j < s[a].len() implies #[trigger] s[a][j]
                != '/' by {
                if a == 0 {
                    assert(s[0] == p.subrange(0, i));
                } else {
                    assert(s[a] == segments(rest)[a - 1]);
                }
            }
        },
    }
}

/// The kept pieces are names other than `.`.
proof fn lemma_keep_names(segs: Seq<Seq<char>>)
    requires
        forall|i: int, j: int| 0 <= i < segs.len() && 0 <= j < segs[i].len() ==> #[trigger] segs[i][j] != '/',
    ensures
        forall|k: int| 0 <= k < keep(segs).len() ==> is_name(#[trigger] keep(segs)[k]) && keep(segs)[k] != "."@,
    decreases segs.len(),
{
    if segs.len() > 0 {
        let init = segs.drop_last();
        assert forall|i: int, j: int| 0 <= i < init.len() && 0 <= j < init[i].len() implies #[trigger] init[i][j]
            != '/' by {
            assert(init[i] == segs[i]);
        }
        lemma_keep_names(init);
        let last = segs.last();
        if !(last == Seq::<char>::empty() || last == "."@) {
            assert(last.len() > 0) by {
                if last.len() == 0 {
                    assert(last =~= Seq::<char>::empty());
                }
            }
            assert forall|j: int| 0 <= j < last.len() implies last[j] != '/' by {
                assert(last[j] == segs[segs.len() - 1][j]);
            }
            let k = keep(init).push(last);
            assert forall|m: int| 0 <= m < k.len() implies is_name(#[trigger] k[m]) && k[m] != "."@ by {
                if m < keep(init).len() {
                    assert(k[m] == keep(init)[m]);
                }
            }
        }
    }
}

/// Each component of a path is the root or a name.
proof fn lemma_components_shape(p: Seq<char>)
    ensures
        forall|k: int|
            0 <= k < components(p).len() ==> #[trigger] components(p)[k] == "/"@ || is_name(components(p)[k]),
{
    reveal_strlit(".");
    lemma_segments_no_sep(p);
    let segs = segments(p);
    if is_absolute(p) {
        lemma_keep_names(segs);
        let c = seq!["/"@] + keep(segs);
        assert forall|k: int| 0 <= k < c.len() implies #[trigger] c[k] == "/"@ || is_name(c[k]) by {
            if k > 0 {
                assert(c[k] == keep(segs)[k - 1]);
            }
        }
    } else if segs[0] == "."@ {
        let rest = segs.drop_first();
        assert forall|i: int, j: int| 0 <= i < rest.len() && 0 <= j < rest[i].len() implies #[trigger] rest[i][j]
            != '/' by {
            assert(rest[i] == segs[i + 1]);
        }
        lemma_keep_names(rest);
        let c = seq!["."@] + keep(rest);
        assert forall|k: int| 0 <= k < c.len() implies #[trigger] c[k] == "/"@ || is_name(c[k]) by {
            if k > 0 {
                assert(c[k] == keep(rest)[k - 1]);
            } else {
                assert(c[0] == "."@);
            }
        }
    } else {
        lemma_keep_names(segs);
    }
}

/// Normalising components that are roots or names leaves names.
proof fn lemma_normalized_clean(cs: Seq<Seq<char>>)
    requires
        forall|k: int| 0 <= k < cs.len() ==> #[trigger] cs[k] == "/"@ || is_name(cs[k]),
    ensures
        normalized(cs) matches Some((rooted, names)) ==> forall|k: int|
            0 <= k < names.len() ==> is_name(#[trigger] names[k]),
    decreases cs.len(),
{
    if cs.len() > 0 {
        let init = cs.drop_last();
        assert forall|k: int| 0 <= k < init.len() implies #[trigger] init[k] == "/"@ || is_name(init[k]) by {
            assert(init[k] == cs[k]);
        }
        lemma_normalized_clean(init);
        match normalized(init) {
            None => {},
            Some((rooted, names)) => {
                let c = cs.last();
                if c != "/"@ && c != "."@ && c != ".."@ {
                    assert(is_name(c));
                    assert forall|k: int| 0 <= k < names.push(c).len() implies is_name(
                        #[trigger] names.push(c)[k],
                    ) by {
                        if k < names.len() {
                            assert(names.push(c)[k] == names[k]);
                        }
                    }
                } else if c == ".."@ && names.len() > 0 {
                    assert forall|k: int| 0 <= k < names.drop_last().len() implies is_name(
                        #[trigger] names.drop_last()[k],
                    ) by {
                        assert(names.drop_last()[k] == names[k]);
                    }
                }
            },
        }
    }
}

/// Splitting at a separator splits the pieces.
proof fn lemma_segments_concat(x: Seq<char>, y: Seq<char>)
    ensures
        segments(x + seq!['/'] + y) == segments(x) + segments(y),
    decreases x.len(),
{
    let p = x + seq!['/'] + y;
    lemma_first_index_props(x, '/');
    match first_index(x, '/') {
        None => {
            assert(p[x.len() as int] == '/');
            assert forall|j: int| 0 <= j < x.len() implies p[j] != '/' by {
                assert(p[j] == x[j]);
            }
            lemma_segments_step(p, x.len() as int);
            assert(p.subrange(0, x.len() as int) =~= x);
            assert(p.subrange(x.len() as int + 1, p.len() as int) =~= y);
            lemma_segments_last(x);
            assert(seq![x] + segments(y) =~= segments(x) + segments(y));
        },
        Some(i) => {
            assert forall|j: int| 0 <= j < i implies p[j] != '/' by {
                assert(p[j] == x[j]);
            }
            assert(p[i] == '/');
            lemma_segments_step(p, i);
            lemma_segments_step(x, i);
            let xr = x.subrange(i + 1, x.len() as int);
            lemma_segments_concat(xr, y);
            assert(p.subrange(i + 1, p.len() as int) =~= xr + seq!['/'] + y);
            assert(p.subrange(0, i) =~= x.subrange(0, i));
            assert(seq![x.subrange(0, i)] + (segments(xr) + segments(y)) =~= (seq![x.subrange(0, i)]
                + segments(xr)) + segments(y));
        },
    }
}

/// Names joined by separators split back into the names.
proof fn lemma_segments_join(names: Seq<Seq<char>>)
    requires
        names.len() > 0,
        forall|k: int| 0 <= k < names.len() ==> is_name(#[trigger] names[k]),
    ensures
        segments(join_names(names)) == names,
        join_names(names).len() > 0 && join_names(names)[0] == names[0][0],
    decreases names.len(),
{
    reveal_strlit("/");
    assert(is_name(names[0]));
    if names.len() == 1 {
        lemma_segments_last(names[0]);
        assert(names =~= seq![names[0]]);
    } else {
        let init = names.drop_last();
        assert forall|k: int| 0 <= k < init.len() implies is_name(#[trigger] init[k]) by {
            assert(init[k] == names[k]);
        }
        lemma_segments_join(init);
        let last = names.last();
        assert(is_name(names[names.len() - 1]));
        assert("/"@ =~= seq!['/']);
        lemma_segments_concat(join_names(init), last);
        lemma_segments_last(last);
        assert(init + seq![last] =~= names);
        assert(init[0] == names[0]);
    }
}

/// Names other than `.` are all kept.
proof fn lemma_keep_names_id(names: Seq<Seq<char>>)
    requires
        forall|k: int| 0 <= k < names.len() ==> is_name(#[trigger] names[k]) && names[k] != "."@,
    ensures
        keep(names) == names,
    decreases names.len(),
{
    if names.len() > 0 {
        let init = names.drop_last();
        assert forall|k: int| 0 <= k < init.len() implies is_name(#[trigger] init[k]) && init[k] != "."@ by {
            assert(init[k] == names[k]);
        }
        lemma_keep_names_id(init);
        assert(is_name(names[names.len() - 1]));
        assert(names.last() != Seq::<char>::empty());
        assert(init.push(names.last()) =~= names);
    }
}

/// Names without `.` or `..`, after the root or not, normalise to
/// themselves.
proof fn lemma_normalized_plain(names: Seq<Seq<char>>, rooted: bool)
    requires
        forall|k: int|
            0 <= k < names.len() ==> is_name(#[trigger] names[k]) && names[k] != "."@ && names[k] != ".."@,
    ensures
        normalized(
            if rooted {
                seq!["/"@] + names
            } else {
                names
            },
        ) == Some((rooted, names)),
    decreases names.len(),
{
    reveal_strlit("/");
    let cs = if rooted {
        seq!["/"@] + names
    } else {
        names
    };
    if names.len() == 0 {
        assert(names =~= Seq::<Seq<char>>::empty());
        assert(normalized(Seq::<Seq<char>>::empty()) == Some((false, Seq::<Seq<char>>::empty())));
        if rooted {
            assert(cs.drop_last() =~= Seq::<Seq<char>>::empty());
            assert(cs.last() == "/"@);
            assert(normalized(cs) == Some((true, Seq::<Seq<char>>::empty())));
        } else {
            assert(cs =~= Seq::<Seq<char>>::empty());
        }
    } else {
        let init = names.drop_last();
        assert forall|k: int| 0 <= k < init.len() implies is_name(#[trigger] init[k]) && init[k] != "."@ && init[k]
            != ".."@ by {
            assert(init[k] == names[k]);
        }
        lemma_normalized_plain(init, rooted);
        let cs0 = if rooted {
            seq!["/"@] + init
        } else {
            init
        };
        assert(cs.drop_last() =~= cs0);
        assert(cs.last() == names.last());
        let last = names.last();
        assert(is_name(names[names.len() - 1]));
        assert(last != "/"@) by {
            if last == "/"@ {
                assert(last[0] == '/');
            }
        }
        assert(last != "."@ && last != ".."@);
        assert(normalized(cs0) == Some((rooted, init)));
        assert(normalized(cs) == Some((rooted, init.push(last))));
        assert(init.push(last) =~= names);
    }
}

/// Normalising a normalised path gives it back unchanged.
pub proof fn lemma_normalize_idempotent(p: Seq<char>)
    ensures
        normalize_spec(p) matches Ok(q) ==> normalize_spec(q) == Ok::<Seq<char>, Seq<char>>(q),
{
    reveal_strlit("/");
    reveal_strlit(".");
    match normalized(components(p)) {
        None => {},
        Some((rooted, names)) => {
            lemma_components_shape(p);
            lemma_normalized_clean(components(p));
            lemma_normalized_names_plain(components(p));
            assert forall|k: int| 0 <= k < names.len() implies is_name(#[trigger] names[k]) && names[k] != "."@
                && names[k] != ".."@ by {
                assert(is_name(names[k]));
                assert(names[k] != "."@ && names[k] != ".."@ && names[k] != "/"@);
            }
            lemma_keep_names_id(names);
            lemma_normalized_plain(names, rooted);
            let j = join_names(names);
            let q = normalized_text(rooted, names);
            let empty = Seq::<char>::empty();
            lemma_segments_last(empty);
            if names.len() > 0 {
                lemma_segments_join(names);
            } else {
                assert(j == empty);
            }
            if rooted {
                assert("/"@ =~= seq!['/']);
                assert(q =~= empty + seq!['/'] + j);
                lemma_segments_concat(empty, j);
                assert(segments(empty) == seq![empty]);
                assert(segments(empty + seq!['/'] + j) == segments(empty) + segments(j));
                assert(is_absolute(q));
                let segs = segments(q);
                assert(segs == segments(empty) + segments(j));
                assert(segs == seq![empty] + segments(j));
                lemma_keep_append(seq![empty], segments(j));
                assert(keep(seq![empty]) =~= Seq::<Seq<char>>::empty()) by {
                    assert(seq![empty].drop_last() =~= Seq::<Seq<char>>::empty());
                    assert(seq![empty].last() == empty);
                    assert(keep(Seq::<Seq<char>>::empty()) == Seq::<Seq<char>>::empty());
                }
                if names.len() == 0 {
                    assert(segments(j) == seq![empty]);
                    assert(keep(segments(j)) =~= Seq::<Seq<char>>::empty());
                }
                assert(keep(segs) == names);
                assert(components(q) == seq!["/"@] + names);
            } else {
                assert(q == j);
                if names.len() == 0 {
                    assert(!is_absolute(q));
                    assert(segments(q) == seq![empty]);
                    assert(segments(q)[0] != "."@);
                    assert(keep(seq![empty]) =~= Seq::<Seq<char>>::empty()) by {
                        assert(seq![empty].drop_last() =~= Seq::<Seq<char>>::empty());
                        assert(seq![empty].last() == empty);
                        assert(keep(Seq::<Seq<char>>::empty()) == Seq::<Seq<char>>::empty());
                    }
                    assert(components(q) =~= names);
                } else {
                    assert(is_name(names[0]));
                    assert(!is_absolute(q));
                    assert(segments(q)[0] == names[0]);
                    assert(components(q) == names);
                }
            }
        },
    }
}


/// When hidden names are not allowed, no component of a validated path,
/// directory or file, starts with a dot, other than `.` and `..`.
pub proof fn lemma_validated_path_has_no_hidden_component(
    path: Seq<char>,
    config: PathValidationConfig,
    res: PathResolution,
)
    requires
        !config.allow_hidden,
    ensures
        validate_spec(path, config, res) matches Ok(cp) ==> forall|i: int|
            0 <= i < components(cp).len() ==> {
                let c = #[trigger] components(cp)[i];
                c.len() == 0 || c[0] != '.' || c == "."@ || c == ".."@
            },
{
    match validate_spec(path, config, res) {
        Ok(cp) => {
            let pc = components(cp);
            assert(!has_hidden(pc));
            assert forall|i: int| 0 <= i < pc.len() implies {
                let c = #[trigger] pc[i];
                c.len() == 0 || c[0] != '.' || c == "."@ || c == ".."@
            } by {
                assert(!is_hidden_name(pc[i]));
            }
        },
        Err(_) => {},
    }
}

/// A pattern's text with each `.` escaped, read from the front.
pub open spec fn dots_escaped(s: Seq<char>) -> Seq<char>
    decreases s.len(),
{
    if s.len() == 0 {
        Seq::<char>::empty()
    } else {
        (if s[0] == '.' {
            seq!['\\', '.']
        } else {
            seq![s[0]]
        }) + dots_escaped(s.drop_first())
    }
}

proof fn lemma_dots_escaped_last(s: Seq<char>)
    requires
        s.len() > 0,
    ensures
        dots_escaped(s) == dots_escaped(s.drop_last()) + (if s.last() == '.' {
            seq!['\\', '.']
        } else {
            seq![s.last()]
        }),
    decreases s.len(),
{
    if s.len() == 1 {
        assert(s.drop_last() =~= Seq::<char>::empty());
        assert(s.drop_first() =~= Seq::<char>::empty());
        assert(dots_escaped(s.drop_first()) == Seq::<char>::empty());
        assert(dots_escaped(s.drop_last()) == Seq::<char>::empty());
        assert(s.last() == s[0]);
    } else {
        lemma_dots_escaped_last(s.drop_first());
        assert(s.drop_first().drop_last() =~= s.drop_last().drop_first());
        assert(s.drop_first().last() == s.last());
        assert(s.drop_last()[0] == s[0]);
        let h = if s[0] == '.' {
            seq!['\\', '.']
        } else {
            seq![s[0]]
        };
        let t = if s.last() == '.' {
            seq!['\\', '.']
        } else {
            seq![s.last()]
        };
        assert(h + (dots_escaped(s.drop_last().drop_first()) + t) =~= (h + dots_escaped(
            s.drop_last().drop_first(),
        )) + t);
    }
}

proof fn lemma_star_body(suffix: Seq<char>)
    requires
        forall|i: int| 0 <= i < suffix.len() ==> suffix[i] != '*' && suffix[i] != '?',
    ensures
        glob_body(seq!['*'] + suffix) == seq!['.', '*'] + dots_escaped(suffix),
    decreases suffix.len(),
{
    let p = seq!['*'] + suffix;
    if suffix.len() == 0 {
        assert(p.drop_last() =~= Seq::<char>::empty());
        assert(glob_body(p.drop_last()) == Seq::<char>::empty());
        assert(p.last() == '*');
        assert(dots_escaped(suffix) == Seq::<char>::empty());
        assert(glob_body(p) =~= seq!['.', '*'] + dots_escaped(suffix));
    } else {
        let init = suffix.drop_last();
        assert forall|i: int| 0 <= i < init.len() implies init[i] != '*' && init[i] != '?' by {
            assert(init[i] == suffix[i]);
        }
        lemma_star_body(init);
        lemma_dots_escaped_last(suffix);
        assert(p.drop_last() =~= seq!['*'] + init);
        assert(p.last() == suffix.last());
        assert(suffix.last() == suffix[suffix.len() - 1]);
        let t = if suffix.last() == '.' {
            seq!['\\', '.']
        } else {
            seq![suffix.last()]
        };
        assert(glob_char_regex(suffix.last()) == t);
        assert((seq!['.', '*'] + dots_escaped(init)) + t =~= seq!['.', '*'] + (dots_escaped(init)
            + t));
    }
}

/// A glob pattern is matched against the whole text: the expression handed
/// to the regular-expression engine for `*` followed by a suffix without
/// wildcards is `^.*`, then the suffix with each `.` escaped, then `$`, so
/// it is anchored at both ends; whether it matches is the engine's answer
/// for that expression and the text.
pub proof fn lemma_glob_star_suffix(suffix: Seq<char>, text: Seq<char>)
    requires
        forall|i: int| 0 <= i < suffix.len() ==> suffix[i] != '*' && suffix[i] != '?',
    ensures
        ({
            let rx = seq!['^', '.', '*'] + dots_escaped(suffix) + seq!['$'];
            glob_matches(seq!['*'] + suffix, text) == (regex_compile_error(rx) is None
                && regex_finds(rx, text))
        }),
{
    lemma_star_body(suffix);
    assert(seq!['^'] + (seq!['.', '*'] + dots_escaped(suffix)) + seq!['$'] =~= seq!['^', '.', '*']
        + dots_escaped(suffix) + seq!['$']);
}

/// The expression of every glob pattern starts with `^` and ends with `$`.
pub proof fn lemma_glob_anchored(pattern: Seq<char>)
    ensures
        glob_regex(pattern).len() >= 2,
        glob_regex(pattern)[0] == '^',
        glob_regex(pattern).last() == '$',
{
}

} // verus!
