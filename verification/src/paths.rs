//! Lexical identity of report output paths.

use vstd::prelude::*;

use crate::config::ConfigError;
use crate::text::{bytes_equal, opt_bytes, split_bytes, split_on};

verus! {

/// What the file system says of two normalized paths: that they name the
/// same existing file, different files, that one of them does not exist, or
/// that it could not tell.
#[derive(Clone, Copy, Debug, PartialEq, Eq, Structural)]
pub enum PathIdentity {
    SameFile,
    DifferentFiles,
    NotFound,
    Failed,
}

pub open spec fn slash() -> u8 {
    0x2Fu8
}

/// The absolute form of a path: the path itself when it starts at the root,
/// otherwise the path joined onto the current directory. `None` when the
/// path is empty, or relative while the current directory is unknown.
pub open spec fn spec_absolute(path: Seq<u8>, current_dir: Option<Seq<u8>>) -> Option<Seq<u8>> {
    if path.len() == 0 {
        None
    } else if path[0] == slash() {
        Some(path)
    } else {
        match current_dir {
            None => None,
            Some(dir) => Some(dir + seq![slash()] + path),
        }
    }
}

pub open spec fn is_dot(s: Seq<u8>) -> bool {
    s == seq![0x2Eu8]
}

pub open spec fn is_dot_dot(s: Seq<u8>) -> bool {
    s == seq![0x2Eu8, 0x2Eu8]
}

/// Resolves `.` and `..` segments without consulting the file system: empty
/// and `.` segments vanish, and `..` removes the segment before it (never
/// climbing above the root).
pub open spec fn normalize_segments(segments: Seq<Seq<u8>>) -> Seq<Seq<u8>>
    decreases segments.len(),
{
    if segments.len() == 0 {
        Seq::empty()
    } else {
        let prev = normalize_segments(segments.drop_last());
        let s = segments.last();
        if s.len() == 0 || is_dot(s) {
            prev
        } else if is_dot_dot(s) {
            if prev.len() > 0 {
                prev.drop_last()
            } else {
                prev
            }
        } else {
            prev.push(s)
        }
    }
}

/// The components below the root of the normalized absolute form of a path.
pub open spec fn spec_normalize(path: Seq<u8>, current_dir: Option<Seq<u8>>) -> Option<
    Seq<Seq<u8>>,
> {
    match spec_absolute(path, current_dir) {
        None => None,
        Some(absolute) => Some(normalize_segments(split_on(absolute, slash()))),
    }
}

/// The path spelled from the root through the given components.
pub open spec fn render_components(components: Seq<Seq<u8>>) -> Seq<u8>
    decreases components.len(),
{
    if components.len() == 0 {
        seq![slash()]
    } else if components.len() == 1 {
        seq![slash()] + components[0]
    } else {
        render_components(components.drop_last()) + seq![slash()] + components.last()
    }
}

pub open spec fn components_view(components: Seq<Vec<u8>>) -> Seq<Seq<u8>> {
    components.map_values(|c: Vec<u8>| c@)
}

/// The absolute form of a path (see `spec_absolute`).
pub fn absolute_path(path: &[u8], current_dir: Option<&[u8]>) -> (res: Option<Vec<u8>>)
    ensures
        match res {
            Some(p) => spec_absolute(path@, opt_bytes(current_dir)) == Some(p@),
            None => spec_absolute(path@, opt_bytes(current_dir)) is None,
        },
{
    if path.len() == 0 {
        return None;
    }
    if path[0] == 0x2Fu8 {
        return Some(vstd::slice::slice_to_vec(path));
    }
    match current_dir {
        None => None,
        Some(dir) => {
            let mut joined = vstd::slice::slice_to_vec(dir);
            joined.push(0x2Fu8);
            let mut i: usize = 0;
            let ghost base = joined@;
            while i < path.len()
                invariant
                    i <= path@.len(),
                    joined@ == base + path@.take(i as int),
                decreases path@.len() - i,
            {
                joined.push(path[i]);
                i = i + 1;
                assert(joined@ =~= base + path@.take(i as int));
            }
            assert(path@.take(i as int) =~= path@);
            assert(joined@ =~= dir@ + seq![0x2Fu8] + path@);
            Some(joined)
        },
    }
}

/// Normalizes the absolute form of a path lexically (see `normalize_segments`).
/// Fails when the path cannot be made absolute.
pub fn lexically_normalize_absolute(path: &[u8], current_dir: Option<&[u8]>) -> (res: Result<
    Vec<Vec<u8>>,
    ConfigError<Vec<u8>>,
>)
    ensures
        match res {
            Ok(components) => spec_normalize(path@, opt_bytes(current_dir)) == Some(
                components_view(components@),
            ),
            Err(e) => spec_normalize(path@, opt_bytes(current_dir)) is None && e@
                == ConfigError::<Seq<u8>>::UnresolvablePath(path@),
        },
{
    let absolute = match absolute_path(path, current_dir) {
        None => {
            return Err(ConfigError::UnresolvablePath(vstd::slice::slice_to_vec(path)));
        },
        Some(p) => p,
    };
    let segments = split_bytes(absolute.as_slice(), 0x2Fu8);
    let ghost sv = segments@.map_values(|p: Vec<u8>| p@);
    let mut normalized: Vec<Vec<u8>> = Vec::new();
    let mut k: usize = 0;
    assert(sv.take(0) =~= Seq::<Seq<u8>>::empty());
    assert(components_view(normalized@) =~= Seq::<Seq<u8>>::empty());
    while k < segments.len()
        invariant
            sv == segments@.map_values(|p: Vec<u8>| p@),
            k <= segments@.len(),
            components_view(normalized@) == normalize_segments(sv.take(k as int)),
        decreases segments@.len() - k,
    {
        let segment = &segments[k];
        assert(sv[k as int] == segment@);
        assert(sv.take(k + 1).drop_last() =~= sv.take(k as int));
        assert(sv.take(k + 1).last() == segment@);
        let ghost prev = components_view(normalized@);
        if segment.len() == 0 || (segment.len() == 1 && segment[0] == 0x2Eu8) {
            proof {
                if segment@.len() == 1 {
                    assert(segment@ =~= seq![0x2Eu8]);
                }
            }
        } else if segment.len() == 2 && segment[0] == 0x2Eu8 && segment[1] == 0x2Eu8 {
            assert(segment@ =~= seq![0x2Eu8, 0x2Eu8]);
            if normalized.len() > 0 {
                normalized.pop();
                assert(components_view(normalized@) =~= prev.drop_last());
            }
        } else {
            proof {
                if is_dot(segment@) {
                    assert(segment@[0] == 0x2Eu8);
                }
                if is_dot_dot(segment@) {
                    assert(segment@[0] == 0x2Eu8 && segment@[1] == 0x2Eu8);
                }
            }
            normalized.push(segment.clone());
            assert(components_view(normalized@) =~= prev.push(segment@));
        }
        k = k + 1;
    }
    assert(sv.take(k as int) =~= sv);
    Ok(normalized)
}

/// Spells normalized components as a path from the root.
pub fn render_path(components: &Vec<Vec<u8>>) -> (path: Vec<u8>)
    ensures
        path@ == render_components(components_view(components@)),
{
    let ghost cv = components_view(components@);
    let mut path: Vec<u8> = Vec::new();
    path.push(0x2Fu8);
    if components.len() == 0 {
        assert(path@ =~= seq![0x2Fu8]);
        return path;
    }
    let mut k: usize = 0;
    while k < components.len()
        invariant
            cv == components_view(components@),
            k <= components@.len(),
            components@.len() > 0,
            k == 0 ==> path@ == seq![0x2Fu8],
            k > 0 ==> path@ == render_components(cv.take(k as int)),
        decreases components@.len() - k,
    {
        let ghost before = path@;
        if k > 0 {
            path.push(0x2Fu8);
        }
        let c = &components[k];
        assert(cv[k as int] == c@);
        let mut i: usize = 0;
        let ghost base = path@;
        while i < c.len()
            invariant
                i <= c@.len(),
                path@ == base + c@.take(i as int),
            decreases c@.len() - i,
        {
            path.push(c[i]);
            i = i + 1;
            assert(path@ =~= base + c@.take(i as int));
        }
        assert(c@.take(i as int) =~= c@);
        proof {
            let t = cv.take(k + 1);
            assert(t.drop_last() =~= cv.take(k as int));
            assert(t.last() == c@);
            if k == 0 {
                assert(t.len() == 1);
                assert(path@ =~= seq![0x2Fu8] + t[0]);
            } else {
                assert(path@ =~= render_components(cv.take(k as int)) + seq![0x2Fu8] + c@);
            }
        }
        k = k + 1;
    }
    assert(cv.take(k as int) =~= cv);
    path
}

fn components_equal(a: &Vec<Vec<u8>>, b: &Vec<Vec<u8>>) -> (res: bool)
    ensures
        res == (components_view(a@) == components_view(b@)),
{
    if a.len() != b.len() {
        return false;
    }
    let mut i: usize = 0;
    while i < a.len()
        invariant
            i <= a@.len(),
            a@.len() == b@.len(),
            forall|j: int| 0 <= j < i ==> a@[j]@ == b@[j]@,
        decreases a@.len() - i,
    {
        if !bytes_equal(a[i].as_slice(), b[i].as_slice()) {
            assert(components_view(a@)[i as int] != components_view(b@)[i as int]);
            return false;
        }
        i = i + 1;
    }
    assert(components_view(a@) =~= components_view(b@));
    true
}

/// Whether two output paths name the same file: lexically after
/// normalization, or else by what the file system reports.
pub open spec fn spec_paths_collide(
    left: Seq<u8>,
    right: Seq<u8>,
    current_dir: Option<Seq<u8>>,
    identity: PathIdentity,
) -> Result<bool, ConfigError<Seq<u8>>> {
    match spec_normalize(left, current_dir) {
        None => Err(ConfigError::UnresolvablePath(left)),
        Some(l) => match spec_normalize(right, current_dir) {
            None => Err(ConfigError::UnresolvablePath(right)),
            Some(r) => if l == r {
                Ok(true)
            } else {
                match identity {
                    PathIdentity::SameFile => Ok(true),
                    PathIdentity::DifferentFiles => Ok(false),
                    PathIdentity::NotFound => Ok(false),
                    PathIdentity::Failed => Err(
                        ConfigError::PathIdentityUnknown(
                            render_components(l),
                            render_components(r),
                        ),
                    ),
                }
            },
        },
    }
}

/// Decides whether two output paths collide; `identity` is what the file
/// system reports of their normalized forms, consulted only when they differ
/// lexically.
pub fn output_paths_collide(
    left: &[u8],
    right: &[u8],
    current_dir: Option<&[u8]>,
    identity: PathIdentity,
) -> (res: Result<bool, ConfigError<Vec<u8>>>)
    ensures
        match res {
            Ok(b) => spec_paths_collide(left@, right@, opt_bytes(current_dir), identity)
                == Ok::<bool, ConfigError<Seq<u8>>>(b),
            Err(e) => spec_paths_collide(left@, right@, opt_bytes(current_dir), identity)
                == Err::<bool, ConfigError<Seq<u8>>>(e@),
        },
{
    let l = lexically_normalize_absolute(left, current_dir)?;
    let r = lexically_normalize_absolute(right, current_dir)?;
    if components_equal(&l, &r) {
        return Ok(true);
    }
    match identity {
        PathIdentity::SameFile => Ok(true),
        PathIdentity::DifferentFiles => Ok(false),
        PathIdentity::NotFound => Ok(false),
        PathIdentity::Failed => Err(ConfigError::PathIdentityUnknown(render_path(&l), render_path(&r))),
    }
}

/// The verdict on a pair of optional report paths.
pub open spec fn spec_ensure_distinct(
    json_path: Option<Seq<u8>>,
    action_json_path: Option<Seq<u8>>,
    current_dir: Option<Seq<u8>>,
    identity: PathIdentity,
) -> Result<(), ConfigError<Seq<u8>>> {
    match (json_path, action_json_path) {
        (Some(j), Some(a)) => match spec_paths_collide(j, a, current_dir, identity) {
            Err(e) => Err(e),
            Ok(true) => Err(ConfigError::OutputPathsCollide),
            Ok(false) => Ok(()),
        },
        _ => Ok(()),
    }
}

/// Rejects full and action report paths that resolve to the same file.
pub fn ensure_distinct_output_paths(
    json_path: Option<&[u8]>,
    action_json_path: Option<&[u8]>,
    current_dir: Option<&[u8]>,
    identity: PathIdentity,
) -> (res: Result<(), ConfigError<Vec<u8>>>)
    ensures
        match res {
            Ok(()) => spec_ensure_distinct(
                opt_bytes(json_path),
                opt_bytes(action_json_path),
                opt_bytes(current_dir),
                identity,
            ) == Ok::<(), ConfigError<Seq<u8>>>(()),
            Err(e) => spec_ensure_distinct(
                opt_bytes(json_path),
                opt_bytes(action_json_path),
                opt_bytes(current_dir),
                identity,
            ) == Err::<(), ConfigError<Seq<u8>>>(e@),
        },
{
    match (json_path, action_json_path) {
        (Some(j), Some(a)) => {
            if output_paths_collide(j, a, current_dir, identity)? {
                Err(ConfigError::OutputPathsCollide)
            } else {
                Ok(())
            }
        },
        _ => Ok(()),
    }
}


/// Two report paths with the same normalized form always collide, whatever
/// the file system says; in particular a path collides with itself.
pub proof fn lemma_lexically_equal_paths_collide(
    left: Seq<u8>,
    right: Seq<u8>,
    current_dir: Option<Seq<u8>>,
    identity: PathIdentity,
)
    requires
        spec_normalize(left, current_dir) is Some,
        spec_normalize(left, current_dir) == spec_normalize(right, current_dir),
    ensures
        spec_paths_collide(left, right, current_dir, identity) == Ok::<bool, ConfigError<Seq<u8>>>(
            true,
        ),
        spec_ensure_distinct(Some(left), Some(right), current_dir, identity) == Err::<
            (),
            ConfigError<Seq<u8>>,
        >(ConfigError::OutputPathsCollide),
{
}

/// With at most one report path there is nothing to collide.
pub proof fn lemma_single_path_never_collides(
    json_path: Option<Seq<u8>>,
    action_json_path: Option<Seq<u8>>,
    current_dir: Option<Seq<u8>>,
    identity: PathIdentity,
)
    requires
        json_path is None || action_json_path is None,
    ensures
        spec_ensure_distinct(json_path, action_json_path, current_dir, identity) == Ok::<
            (),
            ConfigError<Seq<u8>>,
        >(()),
{
}


/// A normalized component: non-empty, neither `.` nor `..`, without `/`.
pub open spec fn clean_component(c: Seq<u8>) -> bool {
    &&& c.len() > 0
    &&& !is_dot(c)
    &&& !is_dot_dot(c)
    &&& !c.contains(slash())
}

pub open spec fn clean_components(cs: Seq<Seq<u8>>) -> bool {
    forall|i: int| 0 <= i < cs.len() ==> clean_component(#[trigger] cs[i])
}

proof fn lemma_split_pieces_have_no_separator(s: Seq<u8>, sep: u8)
    ensures
        forall|i: int|
            0 <= i < split_on(s, sep).len() ==> !(#[trigger] split_on(s, sep)[i]).contains(sep),
    decreases s.len(),
{
    if s.len() > 0 {
        lemma_split_pieces_have_no_separator(s.drop_last(), sep);
        crate::text::lemma_split_on_nonempty(s.drop_last(), sep);
        let pieces = split_on(s.drop_last(), sep);
        if s.last() != sep {
            let grown = pieces.last().push(s.last());
            assert forall|i: int| 0 <= i < split_on(s, sep).len() implies !(#[trigger] split_on(
                s,
                sep,
            )[i]).contains(sep) by {
                if i == pieces.len() - 1 {
                    if grown.contains(sep) {
                        let k = choose|k: int| 0 <= k < grown.len() && grown[k] == sep;
                        assert(pieces.last().contains(sep) || k == grown.len() - 1) by {
                            if k < grown.len() - 1 {
                                assert(pieces.last()[k] == sep);
                            }
                        }
                    }
                }
            }
        } else {
            assert forall|i: int| 0 <= i < split_on(s, sep).len() implies !(#[trigger] split_on(
                s,
                sep,
            )[i]).contains(sep) by {
                if i == pieces.len() {
                    assert(split_on(s, sep)[i] =~= Seq::<u8>::empty());
                }
            }
        }
    }
}

proof fn lemma_normalized_are_clean(segments: Seq<Seq<u8>>)
    requires
        forall|i: int| 0 <= i < segments.len() ==> !(#[trigger] segments[i]).contains(slash()),
    ensures
        clean_components(normalize_segments(segments)),
    decreases segments.len(),
{
    if segments.len() > 0 {
        lemma_normalized_are_clean(segments.drop_last());
        let prev = normalize_segments(segments.drop_last());
        assert(!segments.last().contains(slash()));
        if prev.len() > 0 {
            assert forall|i: int| 0 <= i < prev.drop_last().len() implies clean_component(
                #[trigger] prev.drop_last()[i],
            ) by {
                assert(prev.drop_last()[i] == prev[i]);
            }
        }
        let s = segments.last();
        if !(s.len() == 0 || is_dot(s)) && !is_dot_dot(s) {
            assert forall|i: int| 0 <= i < prev.push(s).len() implies clean_component(
                #[trigger] prev.push(s)[i],
            ) by {
                if i < prev.len() {
                    assert(prev.push(s)[i] == prev[i]);
                }
            }
        }
    }
}

/// The components of a normalized path are clean: non-empty, neither `.`
/// nor `..`, and without `/`.
pub proof fn lemma_normalize_clean(path: Seq<u8>, current_dir: Option<Seq<u8>>)
    requires
        spec_normalize(path, current_dir) is Some,
    ensures
        clean_components(spec_normalize(path, current_dir)->Some_0),
{
    let absolute = spec_absolute(path, current_dir)->Some_0;
    lemma_split_pieces_have_no_separator(absolute, slash());
    lemma_normalized_are_clean(split_on(absolute, slash()));
}

proof fn lemma_split_append_free(prefix: Seq<u8>, b: Seq<u8>, sep: u8)
    requires
        !b.contains(sep),
    ensures
        split_on(prefix + b, sep) == split_on(prefix, sep).update(
            split_on(prefix, sep).len() - 1,
            split_on(prefix, sep).last() + b,
        ),
    decreases b.len(),
{
    crate::text::lemma_split_on_nonempty(prefix, sep);
    let pieces = split_on(prefix, sep);
    if b.len() == 0 {
        assert(prefix + b =~= prefix);
        assert(pieces.last() + b =~= pieces.last());
        assert(pieces.update(pieces.len() - 1, pieces.last()) =~= pieces);
    } else {
        let shorter = b.drop_last();
        assert(!shorter.contains(sep)) by {
            if shorter.contains(sep) {
                let k = choose|k: int| 0 <= k < shorter.len() && shorter[k] == sep;
                assert(b[k] == sep);
            }
        }
        lemma_split_append_free(prefix, shorter, sep);
        assert((prefix + b).drop_last() =~= prefix + shorter);
        assert((prefix + b).last() == b.last());
        assert(b.last() != sep) by {
            assert(b[b.len() - 1] == b.last());
        }
        let inner = split_on(prefix + shorter, sep);
        assert(inner.len() == pieces.len());
        assert(inner.last() == pieces.last() + shorter);
        assert(split_on(prefix + b, sep) == inner.update(
            inner.len() - 1,
            inner.last().push(b.last()),
        ));
        assert(inner.last().push(b.last()) =~= pieces.last() + b);
        assert(split_on(prefix + b, sep) =~= pieces.update(pieces.len() - 1, pieces.last() + b));
    }
}

proof fn lemma_split_rendered(cs: Seq<Seq<u8>>)
    requires
        cs.len() > 0,
        clean_components(cs),
    ensures
        split_on(render_components(cs), slash()) == seq![Seq::<u8>::empty()] + cs,
    decreases cs.len(),
{
    let sep = slash();
    let last = cs.last();
    assert(clean_component(cs[cs.len() - 1]));
    let head: Seq<u8> = if cs.len() == 1 {
        seq![sep]
    } else {
        render_components(cs.drop_last()) + seq![sep]
    };
    assert(render_components(cs) =~= head + last);
    if cs.len() == 1 {
        assert(seq![sep].drop_last() =~= Seq::<u8>::empty());
        assert(split_on(Seq::<u8>::empty(), sep) == seq![Seq::<u8>::empty()]);
        assert(seq![sep].last() == sep);
        assert(split_on(seq![sep], sep) == split_on(Seq::<u8>::empty(), sep).push(
            Seq::<u8>::empty(),
        ));
        assert(split_on(seq![sep], sep) =~= seq![Seq::<u8>::empty(), Seq::<u8>::empty()]);
    } else {
        assert(clean_components(cs.drop_last())) by {
            assert forall|i: int| 0 <= i < cs.drop_last().len() implies clean_component(
                #[trigger] cs.drop_last()[i],
            ) by {
                assert(cs.drop_last()[i] == cs[i]);
            }
        }
        lemma_split_rendered(cs.drop_last());
        assert(head.drop_last() =~= render_components(cs.drop_last()));
        assert(split_on(head, sep) =~= (seq![Seq::<u8>::empty()] + cs.drop_last()).push(
            Seq::<u8>::empty(),
        ));
    }
    lemma_split_append_free(head, last, sep);
    assert(Seq::<u8>::empty() + last =~= last);
    assert(split_on(render_components(cs), sep) =~= seq![Seq::<u8>::empty()] + cs);
}

proof fn lemma_normalize_clean_after_root(cs: Seq<Seq<u8>>)
    requires
        clean_components(cs),
    ensures
        normalize_segments(seq![Seq::<u8>::empty()] + cs) == cs,
    decreases cs.len(),
{
    if cs.len() == 0 {
        assert(seq![Seq::<u8>::empty()] + cs =~= seq![Seq::<u8>::empty()]);
        assert(seq![Seq::<u8>::empty()].drop_last() =~= Seq::<Seq<u8>>::empty());
        assert(normalize_segments(Seq::<Seq<u8>>::empty()) == Seq::<Seq<u8>>::empty());
        assert(normalize_segments(seq![Seq::<u8>::empty()]) == normalize_segments(
            Seq::<Seq<u8>>::empty(),
        ));
    } else {
        assert(clean_components(cs.drop_last())) by {
            assert forall|i: int| 0 <= i < cs.drop_last().len() implies clean_component(
                #[trigger] cs.drop_last()[i],
            ) by {
                assert(cs.drop_last()[i] == cs[i]);
            }
        }
        lemma_normalize_clean_after_root(cs.drop_last());
        assert((seq![Seq::<u8>::empty()] + cs).drop_last() =~= seq![Seq::<u8>::empty()]
            + cs.drop_last());
        assert(clean_component(cs[cs.len() - 1]));
        let whole = seq![Seq::<u8>::empty()] + cs;
        assert(whole.last() == cs.last());
        assert(normalize_segments(whole) == normalize_segments(whole.drop_last()).push(cs.last()));
        assert(cs.drop_last().push(cs.last()) =~= cs);
    }
}

proof fn lemma_render_starts_at_root(cs: Seq<Seq<u8>>)
    ensures
        render_components(cs).len() > 0,
        render_components(cs)[0] == slash(),
    decreases cs.len(),
{
    if cs.len() > 1 {
        lemma_render_starts_at_root(cs.drop_last());
    }
}

/// Normalizing a normalized path changes nothing: the rendered components
/// of any normalized path normalize, from any working directory, to the
/// same components.
pub proof fn lemma_normalize_idempotent(
    path: Seq<u8>,
    current_dir: Option<Seq<u8>>,
    other_dir: Option<Seq<u8>>,
)
    requires
        spec_normalize(path, current_dir) is Some,
    ensures
        spec_normalize(render_components(spec_normalize(path, current_dir)->Some_0), other_dir)
            == spec_normalize(path, current_dir),
{
    let cs = spec_normalize(path, current_dir)->Some_0;
    lemma_normalize_clean(path, current_dir);
    lemma_render_starts_at_root(cs);
    let rendered = render_components(cs);
    assert(spec_absolute(rendered, other_dir) == Some(rendered));
    if cs.len() == 0 {
        assert(rendered =~= seq![slash()]);
        assert(seq![slash()].drop_last() =~= Seq::<u8>::empty());
        assert(split_on(Seq::<u8>::empty(), slash()) == seq![Seq::<u8>::empty()]);
        assert(split_on(rendered, slash()) == split_on(Seq::<u8>::empty(), slash()).push(
            Seq::<u8>::empty(),
        ));
        let two = seq![Seq::<u8>::empty(), Seq::<u8>::empty()];
        assert(split_on(rendered, slash()) =~= two);
        assert(two.drop_last() =~= seq![Seq::<u8>::empty()]);
        assert(seq![Seq::<u8>::empty()].drop_last() =~= Seq::<Seq<u8>>::empty());
        assert(normalize_segments(Seq::<Seq<u8>>::empty()) == Seq::<Seq<u8>>::empty());
        assert(seq![Seq::<u8>::empty()].last().len() == 0);
        assert(normalize_segments(seq![Seq::<u8>::empty()]) == Seq::<Seq<u8>>::empty());
        assert(normalize_segments(two) == normalize_segments(two.drop_last()));
    } else {
        lemma_split_rendered(cs);
        lemma_normalize_clean_after_root(cs);
    }
}

} // verus!
