use vstd::prelude::*;

use crate::assets::{AssetError, ResourceRequest, SResourceRequest};
use crate::language::text::{chars_of, chars_to_string, has_prefix, spec_trim, starts_with_chars, trim_chars};

verus! {

// ---------------------------------------------------------------------------
// Paths (with `/` as separator)
// ---------------------------------------------------------------------------
pub open spec fn is_dot(seg: Seq<char>) -> bool {
    seg.len() == 1 && seg[0] == '.'
}

pub open spec fn is_dot_dot(seg: Seq<char>) -> bool {
    seg.len() == 2 && seg[0] == '.' && seg[1] == '.'
}

/// The effect of one path segment on the stack of kept components: an empty segment and `.`
/// change nothing, `..` drops the last component (if any), any other segment is kept.
pub open spec fn apply_seg(stack: Seq<Seq<char>>, seg: Seq<char>) -> Seq<Seq<char>> {
    if seg.len() == 0 || is_dot(seg) {
        stack
    } else if is_dot_dot(seg) {
        if stack.len() > 0 {
            stack.drop_last()
        } else {
            stack
        }
    } else {
        stack.push(seg)
    }
}

/// The components kept from the segments of `s` (split at `/`), from character `i` on, after
/// the components `stack` and the pending segment `cur`.
pub open spec fn norm_from(s: Seq<char>, i: int, stack: Seq<Seq<char>>, cur: Seq<char>) -> Seq<
    Seq<char>,
>
    decreases s.len() - i,
{
    if i < 0 || i >= s.len() {
        apply_seg(stack, cur)
    } else if s[i] == '/' {
        norm_from(s, i + 1, apply_seg(stack, cur), Seq::empty())
    } else {
        norm_from(s, i + 1, stack, cur.push(s[i]))
    }
}

/// The components that normalizing the path `s` keeps.
pub open spec fn path_components(s: Seq<char>) -> Seq<Seq<char>> {
    norm_from(s, 0, Seq::empty(), Seq::empty())
}

/// The components `parts` joined with `/`.
pub open spec fn join_slash(parts: Seq<Seq<char>>) -> Seq<char>
    decreases parts.len(),
{
    if parts.len() == 0 {
        Seq::empty()
    } else if parts.len() == 1 {
        parts[0]
    } else {
        join_slash(parts.drop_last()) + seq!['/'] + parts.last()
    }
}

/// The path `s` with `.`, empty segments and `..` (with the component before it) resolved
/// away, and any root dropped: a relative path.
pub open spec fn spec_normalize(s: Seq<char>) -> Seq<char> {
    join_slash(path_components(s))
}

/// `root` joined with the relative path `rel` (`PathBuf::join`): a separator is put between
/// them unless `root` is empty or already ends with one.
pub open spec fn join_path(root: Seq<char>, rel: Seq<char>) -> Seq<char> {
    if root.len() == 0 {
        rel
    } else if root.last() == '/' {
        root + rel
    } else {
        root + seq!['/'] + rel
    }
}

/// The components kept by normalizing are never empty, `.` or `..`.
pub open spec fn clean_components(parts: Seq<Seq<char>>) -> bool {
    forall|k: int|
        0 <= k < parts.len() ==> #[trigger] parts[k].len() > 0 && !is_dot(parts[k]) && !is_dot_dot(
            parts[k],
        )
}

proof fn lemma_apply_seg_clean(stack: Seq<Seq<char>>, seg: Seq<char>)
    requires
        clean_components(stack),
    ensures
        clean_components(apply_seg(stack, seg)),
{
    let r = apply_seg(stack, seg);
    assert forall|k: int| 0 <= k < r.len() implies #[trigger] r[k].len() > 0 && !is_dot(r[k]) && !is_dot_dot(r[k]) by {
        if !(seg.len() == 0 || is_dot(seg)) && is_dot_dot(seg) && stack.len() > 0 {
            assert(r[k] == stack[k]);
        } else if !(seg.len() == 0 || is_dot(seg) || is_dot_dot(seg)) && k < stack.len() {
            assert(r[k] == stack[k]);
        }
    }
}

proof fn lemma_norm_from_clean(s: Seq<char>, i: int, stack: Seq<Seq<char>>, cur: Seq<char>)
    requires
        clean_components(stack),
    ensures
        clean_components(norm_from(s, i, stack, cur)),
    decreases s.len() - i,
{
    lemma_apply_seg_clean(stack, cur);
    if 0 <= i < s.len() {
        if s[i] == '/' {
            lemma_norm_from_clean(s, i + 1, apply_seg(stack, cur), Seq::empty());
        } else {
            lemma_norm_from_clean(s, i + 1, stack, cur.push(s[i]));
        }
    }
}

/// No component of a normalized path is empty, `.` or `..`: a normalized path never climbs
/// out of the directory it is joined to.
pub proof fn lemma_normalized_components_clean(s: Seq<char>)
    ensures
        clean_components(path_components(s)),
{
    lemma_norm_from_clean(s, 0, Seq::empty(), Seq::empty());
}

/// No component among `parts` holds a `/`.
pub open spec fn slash_free(parts: Seq<Seq<char>>) -> bool {
    forall|k: int, j: int| 0 <= k < parts.len() && 0 <= j < parts[k].len() ==> #[trigger] parts[k][j] != '/'
}

proof fn lemma_norm_from_slash_free(s: Seq<char>, i: int, stack: Seq<Seq<char>>, cur: Seq<char>)
    requires
        slash_free(stack),
        forall|j: int| 0 <= j < cur.len() ==> #[trigger] cur[j] != '/',
    ensures
        slash_free(norm_from(s, i, stack, cur)),
    decreases s.len() - i,
{
    let st2 = apply_seg(stack, cur);
    assert(slash_free(st2)) by {
        assert forall|k: int, j: int| 0 <= k < st2.len() && 0 <= j < st2[k].len() implies #[trigger] st2[k][j]
            != '/' by {
            if k == stack.len() {
                assert(st2[k] == cur);
            } else {
                assert(st2[k] == stack[k]);
            }
        }
    }
    if 0 <= i < s.len() {
        if s[i] == '/' {
            lemma_norm_from_slash_free(s, i + 1, st2, Seq::empty());
        } else {
            let c2 = cur.push(s[i]);
            assert forall|j: int| 0 <= j < c2.len() implies #[trigger] c2[j] != '/' by {
                if j < cur.len() {
                    assert(c2[j] == cur[j]);
                }
            }
            lemma_norm_from_slash_free(s, i + 1, stack, c2);
        }
    }
}

/// Reading `m` characters that are not `/` only extends the pending segment.
proof fn lemma_norm_from_run(s: Seq<char>, i: int, m: int, stack: Seq<Seq<char>>, cur: Seq<char>)
    requires
        0 <= i,
        0 <= m,
        i + m <= s.len(),
        forall|j: int| i <= j < i + m ==> #[trigger] s[j] != '/',
    ensures
        norm_from(s, i, stack, cur) == norm_from(s, i + m, stack, cur + s.subrange(i, i + m)),
    decreases m,
{
    if m == 0 {
        assert(cur + s.subrange(i, i) =~= cur);
    } else {
        assert(s[i] != '/');
        lemma_norm_from_run(s, i + 1, m - 1, stack, cur.push(s[i]));
        assert(cur.push(s[i]) + s.subrange(i + 1, i + m) =~= cur + s.subrange(i, i + m));
    }
}

proof fn lemma_join_slash_front(parts: Seq<Seq<char>>)
    requires
        parts.len() >= 2,
    ensures
        join_slash(parts) == parts[0] + seq!['/'] + join_slash(parts.drop_first()),
    decreases parts.len(),
{
    let dl = parts.drop_last();
    let df = parts.drop_first();
    if parts.len() == 2 {
        assert(dl.len() == 1 && dl[0] == parts[0]);
        assert(df.len() == 1 && df[0] == parts[1]);
        assert(join_slash(dl) == parts[0]);
        assert(join_slash(df) == parts[1]);
        assert(join_slash(parts) == join_slash(dl) + seq!['/'] + parts.last());
    } else {
        lemma_join_slash_front(dl);
        assert(dl.drop_first() =~= df.drop_last());
        assert(df.last() == parts.last());
        assert(dl[0] == parts[0]);
        assert(join_slash(df) == join_slash(df.drop_last()) + seq!['/'] + df.last());
        assert(join_slash(parts) == join_slash(dl) + seq!['/'] + parts.last());
        assert(join_slash(parts) =~= parts[0] + seq!['/'] + join_slash(df));
    }
}

proof fn lemma_norm_from_joined(s: Seq<char>, i: int, parts: Seq<Seq<char>>, stack: Seq<Seq<char>>)
    requires
        0 <= i <= s.len(),
        parts.len() >= 1,
        clean_components(parts),
        slash_free(parts),
        s.subrange(i, s.len() as int) == join_slash(parts),
    ensures
        norm_from(s, i, stack, Seq::empty()) == stack + parts,
    decreases parts.len(),
{
    let p0 = parts[0];
    let m = p0.len() as int;
    if parts.len() == 1 {
        assert(join_slash(parts) == p0);
        assert forall|j: int| i <= j < i + m implies #[trigger] s[j] != '/' by {
            assert(s[j] == s.subrange(i, s.len() as int)[j - i]);
            assert(p0[j - i] != '/');
        }
        lemma_norm_from_run(s, i, m, stack, Seq::empty());
        assert(Seq::<char>::empty() + s.subrange(i, i + m) =~= p0);
        assert(stack + parts =~= stack.push(p0));
    } else {
        lemma_join_slash_front(parts);
        let rest = parts.drop_first();
        let t = s.subrange(i, s.len() as int);
        assert(t == p0 + seq!['/'] + join_slash(rest));
        assert forall|j: int| i <= j < i + m implies #[trigger] s[j] != '/' by {
            assert(s[j] == t[j - i]);
            assert(t[j - i] == p0[j - i]);
            assert(p0[j - i] != '/');
        }
        lemma_norm_from_run(s, i, m, stack, Seq::empty());
        assert(Seq::<char>::empty() + s.subrange(i, i + m) =~= p0) by {
            assert forall|j: int| 0 <= j < m implies #[trigger] s.subrange(i, i + m)[j] == p0[j] by {
                assert(s[i + j] == t[j]);
            }
        }
        assert(s[i + m] == t[m]);
        assert(s[i + m] == '/');
        assert(clean_components(rest)) by {
            assert forall|k: int| 0 <= k < rest.len() implies #[trigger] rest[k].len() > 0 && !is_dot(rest[k])
                && !is_dot_dot(rest[k]) by {
                assert(rest[k] == parts[k + 1]);
            }
        }
        assert(slash_free(rest)) by {
            assert forall|k: int, j: int| 0 <= k < rest.len() && 0 <= j < rest[k].len() implies #[trigger] rest[k][j]
                != '/' by {
                assert(rest[k] == parts[k + 1]);
            }
        }
        assert(s.subrange(i + m + 1, s.len() as int) =~= join_slash(rest)) by {
            assert forall|j: int| 0 <= j < s.len() - (i + m + 1) implies #[trigger] s.subrange(i + m + 1, s.len() as int)[j]
                == join_slash(rest)[j] by {
                assert(s[i + m + 1 + j] == t[m + 1 + j]);
            }
        }
        assert(p0.len() > 0 && !is_dot(p0) && !is_dot_dot(p0));
        lemma_norm_from_joined(s, i + m + 1, rest, stack.push(p0));
        assert(stack.push(p0) + rest =~= stack + parts);
    }
}

/// Normalizing a normalized path changes nothing.
pub proof fn lemma_normalize_idempotent(s: Seq<char>)
    ensures
        spec_normalize(spec_normalize(s)) == spec_normalize(s),
{
    let parts = path_components(s);
    lemma_norm_from_clean(s, 0, Seq::empty(), Seq::empty());
    lemma_norm_from_slash_free(s, 0, Seq::empty(), Seq::empty());
    let n = join_slash(parts);
    if parts.len() == 0 {
        assert(n =~= Seq::<char>::empty());
        assert(path_components(n) =~= Seq::<Seq<char>>::empty());
    } else {
        assert(n.subrange(0, n.len() as int) =~= n);
        lemma_norm_from_joined(n, 0, parts, Seq::empty());
        assert(Seq::<Seq<char>>::empty() + parts =~= parts);
    }
}

fn seg_is_dot(seg: &Vec<char>) -> (r: bool)
    ensures
        r == is_dot(seg@),
{
    seg.len() == 1 && seg[0] == '.'
}

fn seg_is_dot_dot(seg: &Vec<char>) -> (r: bool)
    ensures
        r == is_dot_dot(seg@),
{
    seg.len() == 2 && seg[0] == '.' && seg[1] == '.'
}

pub open spec fn segs_view(v: Seq<Vec<char>>) -> Seq<Seq<char>> {
    v.map_values(|x: Vec<char>| x@)
}

fn apply_segment(stack: &mut Vec<Vec<char>>, seg: Vec<char>)
    ensures
        segs_view(final(stack)@) == apply_seg(segs_view(old(stack)@), seg@),
{
    let ghost s0 = segs_view(stack@);
    if seg.len() == 0 || seg_is_dot(&seg) {
    } else if seg_is_dot_dot(&seg) {
        if stack.len() > 0 {
            stack.pop();
            assert(segs_view(stack@) =~= s0.drop_last());
        }
    } else {
        stack.push(seg);
        assert(segs_view(stack@) =~= s0.push(seg@));
    }
}

fn append_chars(out: &mut Vec<char>, more: &Vec<char>)
    ensures
        final(out)@ == old(out)@ + more@,
{
    let ghost o0 = out@;
    for i in 0..more.len()
        invariant
            out@ == o0 + more@.take(i as int),
    {
        out.push(more[i]);
        assert(more@.take(i + 1) =~= more@.take(i as int).push(more@[i as int]));
        assert(o0 + more@.take(i + 1) =~= (o0 + more@.take(i as int)).push(more@[i as int]));
    }
    assert(more@.take(more.len() as int) =~= more@);
}

/// The normalized form of the path `path`: its `/`-separated segments, with empty segments
/// and `.` dropped, each `..` removing the component before it, and any root dropped.
pub fn normalize_path(path: &str) -> (r: String)
    ensures
        r@ == spec_normalize(path@),
{
    let s = chars_of(path);
    let mut stack: Vec<Vec<char>> = Vec::new();
    let mut cur: Vec<char> = Vec::new();
    let mut i: usize = 0;
    assert(segs_view(stack@) =~= Seq::<Seq<char>>::empty());
    assert(cur@ =~= Seq::<char>::empty());
    while i < s.len()
        invariant
            i <= s.len(),
            s@ == path@,
            norm_from(s@, i as int, segs_view(stack@), cur@) == path_components(path@),
        decreases s.len() - i,
    {
        if s[i] == '/' {
            let seg = cur;
            apply_segment(&mut stack, seg);
            cur = Vec::new();
            assert(cur@ =~= Seq::<char>::empty());
        } else {
            cur.push(s[i]);
        }
        i = i + 1;
    }
    apply_segment(&mut stack, cur);
    let ghost parts = segs_view(stack@);
    let mut out: Vec<char> = Vec::new();
    let mut k: usize = 0;
    while k < stack.len()
        invariant
            k <= stack.len(),
            parts == segs_view(stack@),
            out@ == join_slash(parts.take(k as int)),
        decreases stack.len() - k,
    {
        assert(parts.take(k + 1).drop_last() =~= parts.take(k as int));
        assert(parts.take(k + 1).last() == stack@[k as int]@);
        if k > 0 {
            out.push('/');
        } else {
            assert(out@ =~= Seq::<char>::empty());
        }
        append_chars(&mut out, &stack[k]);
        proof {
            if k > 0 {
                assert(out@ =~= join_slash(parts.take(k as int)) + seq!['/'] + stack@[k as int]@);
            } else {
                assert(out@ =~= stack@[0]@);
            }
        }
        k = k + 1;
    }
    assert(parts.take(stack.len() as int) =~= parts);
    chars_to_string(out.as_slice())
}

/// Where the asset path `path` points: under `asset_root` (after normalizing `path`) when there
/// is a root, else `path` itself.
pub fn resolve_asset_path(path: &str, asset_root: &Option<String>) -> (r: String)
    ensures
        match asset_root {
            Some(root) => r@ == join_path(root@, spec_normalize(path@)),
            None => r@ == path@,
        },
{
    match asset_root {
        Some(root) => {
            let rel = normalize_path(path);
            let root_chars = chars_of(root.as_str());
            let rel_chars = chars_of(rel.as_str());
            let mut out: Vec<char> = Vec::new();
            append_chars(&mut out, &root_chars);
            if root_chars.len() > 0 && root_chars[root_chars.len() - 1] != '/' {
                out.push('/');
            }
            append_chars(&mut out, &rel_chars);
            proof {
                if root@.len() > 0 {
                    assert(root@.last() == root_chars@[root_chars.len() - 1]);
                }
                if root@.len() == 0 {
                    assert(out@ =~= rel@);
                }
            }
            chars_to_string(out.as_slice())
        },
        None => chars_to_string(chars_of(path).as_slice()),
    }
}

/// What loading the asset `src` asks for: `src` without surrounding white space is fetched
/// when it is an `http://` or `https://` URL (unless network assets are disabled), and read as
/// a file under the asset root otherwise.
pub fn load_resource(src: &str, allow_network_asset: bool, asset_root: &Option<String>) -> (r:
    Result<ResourceRequest, AssetError>)
    ensures
        ({
            let t = spec_trim(src@);
            let is_url = has_prefix(t, seq!['h', 't', 't', 'p', ':', '/', '/']) || has_prefix(
                t,
                seq!['h', 't', 't', 'p', 's', ':', '/', '/'],
            );
            &&& is_url && !allow_network_asset ==> r == Err::<ResourceRequest, _>(
                AssetError::NetworkAssetDisabled,
            )
            &&& is_url && allow_network_asset ==> (r matches Ok(q) && q@ == SResourceRequest::Url(t))
            &&& !is_url ==> (r matches Ok(q) && q@ == SResourceRequest::File(
                match asset_root {
                    Some(root) => join_path(root@, spec_normalize(t)),
                    None => t,
                },
            ))
        }),
{
    let chars = chars_of(src);
    let t = trim_chars(&chars);
    let http = ['h', 't', 't', 'p', ':', '/', '/'];
    let https = ['h', 't', 't', 'p', 's', ':', '/', '/'];
    let is_http = starts_with_chars(&t, http.as_slice());
    let is_https = starts_with_chars(&t, https.as_slice());
    proof {
        assert(http@ =~= seq!['h', 't', 't', 'p', ':', '/', '/']);
        assert(https@ =~= seq!['h', 't', 't', 'p', 's', ':', '/', '/']);
    }
    let trimmed = chars_to_string(t.as_slice());
    if is_http || is_https {
        if !allow_network_asset {
            return Err(AssetError::NetworkAssetDisabled);
        }
        Ok(ResourceRequest::Url(trimmed))
    } else {
        Ok(ResourceRequest::File(resolve_asset_path(trimmed.as_str(), asset_root)))
    }
}

} // verus!
