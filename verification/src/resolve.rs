//! Resource resolution: judge the metadata probe's response and derive the
//! local file name, either from a content-disposition style header or from
//! the final segment of the resolved URL's path.

use vstd::prelude::*;

verus! {

/// ASCII `;`: separates the parameters of a disposition header.
pub const SEMICOLON: u8 = 59;

/// ASCII `=`: separates a parameter's key from its value.
pub const EQUALS: u8 = 61;

/// ASCII `/`: separates the segments of a URL path.
pub const SLASH: u8 = 47;

/// Splitting `s` on `sep`: one part per separator-free stretch, so the
/// result always holds at least one part and `s` is the parts rejoined
/// with `sep` between them.
pub open spec fn split_on(s: Seq<u8>, sep: u8) -> Seq<Seq<u8>>
    decreases s.len(),
{
    if s.len() == 0 {
        seq![Seq::<u8>::empty()]
    } else if s[0] == sep {
        seq![Seq::<u8>::empty()] + split_on(s.drop_first(), sep)
    } else {
        let rest = split_on(s.drop_first(), sep);
        seq![seq![s[0]] + rest[0]] + rest.drop_first()
    }
}

/// `sep` occurs nowhere in `s`.
pub open spec fn no_byte(s: Seq<u8>, sep: u8) -> bool {
    forall|k: int| 0 <= k < s.len() ==> s[k] != sep
}

/// The views of a vector of byte vectors.
pub open spec fn views_of(parts: Seq<Vec<u8>>) -> Seq<Seq<u8>> {
    parts.map_values(|p: Vec<u8>| p@)
}

/// Splitting yields at least one part.
pub proof fn lemma_split_on_nonempty(s: Seq<u8>, sep: u8)
    ensures
        split_on(s, sep).len() >= 1,
{
}

/// A separator-free sequence splits into itself alone.
pub proof fn lemma_split_no_sep(s: Seq<u8>, sep: u8)
    requires
        no_byte(s, sep),
    ensures
        split_on(s, sep) == seq![s],
    decreases s.len(),
{
    if s.len() == 0 {
        assert(s =~= Seq::<u8>::empty());
        assert(split_on(s, sep) =~= seq![s]);
    } else {
        assert(s[0] != sep);
        assert forall|k: int| 0 <= k < s.drop_first().len() implies s.drop_first()[k] != sep by {
            assert(s.drop_first()[k] == s[k + 1]);
        }
        lemma_split_no_sep(s.drop_first(), sep);
        let rest = split_on(s.drop_first(), sep);
        assert(rest == seq![s.drop_first()]);
        assert(seq![s[0]] + rest[0] =~= s);
        assert(rest.drop_first() =~= Seq::<Seq<u8>>::empty());
        assert(split_on(s, sep) =~= seq![s]);
    }
}

/// Splitting distributes over a separator: the parts of `a + sep + b` are
/// the parts of `a` followed by the parts of `b`.
pub proof fn lemma_split_append(a: Seq<u8>, b: Seq<u8>, sep: u8)
    ensures
        split_on(a + seq![sep] + b, sep) == split_on(a, sep) + split_on(b, sep),
    decreases a.len(),
{
    let s = a + seq![sep] + b;
    if a.len() == 0 {
        assert(s[0] == sep);
        assert(s.drop_first() =~= b);
        assert(a =~= Seq::<u8>::empty());
        assert(split_on(s, sep) =~= split_on(a, sep) + split_on(b, sep));
    } else if a[0] == sep {
        assert(s[0] == sep);
        lemma_split_append(a.drop_first(), b, sep);
        assert(s.drop_first() =~= a.drop_first() + seq![sep] + b);
        assert(split_on(s, sep) =~= split_on(a, sep) + split_on(b, sep));
    } else {
        assert(s[0] == a[0] && s[0] != sep);
        lemma_split_append(a.drop_first(), b, sep);
        assert(s.drop_first() =~= a.drop_first() + seq![sep] + b);
        let resta = split_on(a.drop_first(), sep);
        let rests = split_on(s.drop_first(), sep);
        assert(rests == resta + split_on(b, sep));
        lemma_split_on_nonempty(a.drop_first(), sep);
        assert(rests[0] == resta[0]);
        assert(rests.drop_first() =~= resta.drop_first() + split_on(b, sep));
        assert(split_on(s, sep) =~= split_on(a, sep) + split_on(b, sep));
    }
}

/// Copy of the byte range `[from, to)` of `s`.
pub fn sub_vec(s: &Vec<u8>, from: usize, to: usize) -> (r: Vec<u8>)
    requires
        from <= to <= s@.len(),
    ensures
        r@ == s@.subrange(from as int, to as int),
{
    let mut r: Vec<u8> = Vec::new();
    let mut k: usize = from;
    while k < to
        invariant
            from <= k <= to <= s@.len(),
            r@ == s@.subrange(from as int, k as int),
        decreases to - k,
    {
        r.push(s[k]);
        proof {
            assert(s@.subrange(from as int, (k + 1) as int) =~= s@.subrange(
                from as int,
                k as int,
            ).push(s@[k as int]));
        }
        k = k + 1;
    }
    r
}

/// Copy of the whole of `s`.
pub fn copy_bytes(s: &Vec<u8>) -> (r: Vec<u8>)
    ensures
        r@ == s@,
{
    let r = sub_vec(s, 0, s.len());
    proof {
        assert(s@.subrange(0, s@.len() as int) =~= s@);
    }
    r
}

/// Split `s` into its separator-free parts, in order.
pub fn split_bytes(s: &Vec<u8>, sep: u8) -> (parts: Vec<Vec<u8>>)
    ensures
        views_of(parts@) == split_on(s@, sep),
{
    let mut parts: Vec<Vec<u8>> = Vec::new();
    let mut start: usize = 0;
    let mut i: usize = 0;
    proof {
        assert(views_of(parts@) =~= Seq::<Seq<u8>>::empty());
        assert(s@.subrange(0, s@.len() as int) =~= s@);
        assert(views_of(parts@) + split_on(s@, sep) =~= split_on(s@, sep));
    }
    while i < s.len()
        invariant
            start <= i <= s@.len(),
            forall|k: int| start <= k < i ==> s@[k] != sep,
            views_of(parts@) + split_on(s@.subrange(start as int, s@.len() as int), sep)
                == split_on(s@, sep),
        decreases s@.len() - i,
    {
        if s[i] == sep {
            let seg = sub_vec(s, start, i);
            proof {
                let rem = s@.subrange(start as int, s@.len() as int);
                let tail = s@.subrange((i + 1) as int, s@.len() as int);
                assert(rem =~= seg@ + seq![sep] + tail);
                lemma_split_no_sep(seg@, sep);
                lemma_split_append(seg@, tail, sep);
                assert(views_of(parts@.push(seg)) =~= views_of(parts@).push(seg@));
                assert(views_of(parts@.push(seg)) + split_on(tail, sep) =~= views_of(parts@) + (
                seq![seg@] + split_on(tail, sep)));
            }
            parts.push(seg);
            start = i + 1;
        }
        i = i + 1;
    }
    let seg = sub_vec(s, start, s.len());
    proof {
        let rem = s@.subrange(start as int, s@.len() as int);
        lemma_split_no_sep(rem, sep);
        assert(views_of(parts@.push(seg)) =~= views_of(parts@).push(seg@));
        assert(views_of(parts@) + seq![rem] =~= views_of(parts@.push(seg)));
    }
    parts.push(seg);
    parts
}

/// `pat` occurs somewhere in `s` as a contiguous run of bytes.
pub open spec fn contains_subseq(s: Seq<u8>, pat: Seq<u8>) -> bool {
    exists|k: int|
        0 <= k && k + pat.len() <= s.len() && #[trigger] s.subrange(k, k + pat.len()) == pat
}

/// Search `s` for an occurrence of `pat`.
pub fn contains_bytes(s: &Vec<u8>, pat: &Vec<u8>) -> (r: bool)
    ensures
        r == contains_subseq(s@, pat@),
{
    let n = s.len();
    let m = pat.len();
    if m > n {
        return false;
    }
    if m == 0 {
        proof {
            assert(s@.subrange(0, 0 + pat@.len() as int) =~= pat@);
            assert(contains_subseq(s@, pat@));
        }
        return true;
    }
    let mut k: usize = 0;
    while k <= n - m
        invariant
            0 < m <= n == s@.len(),
            m == pat@.len(),
            k <= n - m + 1,
            forall|q: int| 0 <= q < k ==> #[trigger] s@.subrange(q, q + pat@.len()) != pat@,
        decreases n - k,
    {
        let mut j: usize = 0;
        let mut same = true;
        while j < m
            invariant
                m <= n == s@.len(),
                m == pat@.len(),
                k + m <= n,
                j <= m,
                same ==> forall|t: int| 0 <= t < j ==> s@[k + t] == pat@[t],
                !same ==> s@.subrange(k as int, k as int + pat@.len()) != pat@,
            decreases m - j,
        {
            if s[k + j] != pat[j] {
                proof {
                    assert(s@.subrange(k as int, k as int + pat@.len())[j as int] == s@[k as int
                        + j]);
                }
                same = false;
            }
            j = j + 1;
        }
        if same {
            proof {
                assert(s@.subrange(k as int, k as int + pat@.len()) =~= pat@);
            }
            return true;
        }
        k = k + 1;
    }
    proof {
        assert forall|q: int|
            0 <= q && q + pat@.len() <= s@.len() implies #[trigger] s@.subrange(q, q + pat@.len())
            != pat@ by {}
    }
    false
}

/// The marker that singles out the file-name parameter of a disposition
/// header: the ASCII bytes of `filename`.
pub open spec fn filename_marker() -> Seq<u8> {
    seq![102u8, 105u8, 108u8, 101u8, 110u8, 97u8, 109u8, 101u8]
}

/// The ASCII bytes of `filename`, as a value.
pub fn filename_marker_bytes() -> (r: Vec<u8>)
    ensures
        r@ == filename_marker(),
{
    let r: Vec<u8> = vec![102u8, 105u8, 108u8, 101u8, 110u8, 97u8, 109u8, 101u8];
    proof {
        assert(r@ =~= filename_marker());
    }
    r
}

/// The first of `segs` in which `pat` occurs, if any.
pub open spec fn first_containing(segs: Seq<Seq<u8>>, pat: Seq<u8>) -> Option<Seq<u8>>
    decreases segs.len(),
{
    if segs.len() == 0 {
        None
    } else if contains_subseq(segs[0], pat) {
        Some(segs[0])
    } else {
        first_containing(segs.drop_first(), pat)
    }
}

/// Index of the first part of `parts` in which `pat` occurs.
pub fn find_first_containing(parts: &Vec<Vec<u8>>, pat: &Vec<u8>) -> (r: Option<usize>)
    ensures
        match r {
            Some(idx) => idx < parts@.len() && first_containing(views_of(parts@), pat@) == Some(
                parts@[idx as int]@,
            ),
            None => first_containing(views_of(parts@), pat@) is None,
        },
{
    let ghost segs = views_of(parts@);
    let mut k: usize = 0;
    proof {
        assert(segs.subrange(0, segs.len() as int) =~= segs);
    }
    while k < parts.len()
        invariant
            k <= parts@.len(),
            segs == views_of(parts@),
            segs.len() == parts@.len(),
            first_containing(segs, pat@) == first_containing(
                segs.subrange(k as int, segs.len() as int),
                pat@,
            ),
        decreases parts@.len() - k,
    {
        let hit = contains_bytes(&parts[k], pat);
        proof {
            let suffix = segs.subrange(k as int, segs.len() as int);
            assert(suffix[0] == parts@[k as int]@);
            assert(suffix.drop_first() =~= segs.subrange((k + 1) as int, segs.len() as int));
        }
        if hit {
            return Some(k);
        }
        k = k + 1;
    }
    proof {
        assert(segs.subrange(k as int, segs.len() as int) =~= Seq::<Seq<u8>>::empty());
    }
    None
}

/// The name a disposition header yields: split the header on `;`, take the
/// first parameter mentioning `filename`, split that parameter on `=`, and
/// take the value if key and value stand alone.
pub open spec fn disposition_name(ctd: Seq<u8>) -> Option<Seq<u8>> {
    match first_containing(split_on(ctd, SEMICOLON), filename_marker()) {
        Some(seg) => {
            let kv = split_on(seg, EQUALS);
            if kv.len() == 2 {
                Some(kv[1])
            } else {
                None
            }
        },
        None => None,
    }
}

/// Derive a file name from a content-disposition style header.
pub fn parse_disposition(ctd: &Vec<u8>) -> (r: Option<Vec<u8>>)
    ensures
        match r {
            Some(n) => disposition_name(ctd@) == Some(n@),
            None => disposition_name(ctd@) is None,
        },
{
    let parts = split_bytes(ctd, SEMICOLON);
    let marker = filename_marker_bytes();
    match find_first_containing(&parts, &marker) {
        Some(idx) => {
            let mut kv = split_bytes(&parts[idx], EQUALS);
            if kv.len() == 2 {
                proof {
                    assert(views_of(kv@)[1] == kv@[1]@);
                }
                kv.pop()
            } else {
                None
            }
        },
        None => None,
    }
}

/// The name the URL path yields: its final segment, when non-empty.
pub open spec fn path_name(path: Seq<u8>) -> Option<Seq<u8>> {
    let segs = split_on(path, SLASH);
    if segs.last().len() > 0 {
        Some(segs.last())
    } else {
        None
    }
}

/// Derive a file name from the final segment of a URL path.
pub fn path_file_name(path: &Vec<u8>) -> (r: Option<Vec<u8>>)
    ensures
        match r {
            Some(n) => path_name(path@) == Some(n@),
            None => path_name(path@) is None,
        },
{
    let mut parts = split_bytes(path, SLASH);
    proof {
        lemma_split_on_nonempty(path@, SLASH);
        assert(views_of(parts@).len() == parts@.len());
        assert(views_of(parts@)[parts@.len() - 1] == parts@[parts@.len() - 1]@);
    }
    match parts.pop() {
        Some(last) => {
            if last.len() > 0 {
                Some(last)
            } else {
                None
            }
        },
        None => None,
    }
}

/// A success-class response status.
pub open spec fn is_success_code(status: u16) -> bool {
    200 <= status < 300
}

/// Judge whether a response status is success-class.
pub fn success_status(status: u16) -> (r: bool)
    ensures
        r == is_success_code(status),
{
    200 <= status && status < 300
}

/// What the metadata probe handed back: the resolved URL (after redirects)
/// and its path, the response status, and the declared length and
/// disposition header where the response carried them.
pub struct ProbeResponse {
    pub canonical_url: Vec<u8>,
    pub url_path: Vec<u8>,
    pub status: u16,
    pub content_length: Option<usize>,
    pub content_disposition: Option<Vec<u8>>,
}

/// One downloadable item: its resolved URL, the byte count the server
/// declared for it, and the file name derived for the local artifact.
#[derive(Debug, PartialEq, Eq)]
pub struct RemoteResource {
    pub canonical_url: Vec<u8>,
    pub declared_length: usize,
    pub resolved_name: Vec<u8>,
}

/// Why a probe response could not be turned into a resource.
#[derive(Clone, Copy, PartialEq, Eq, Structural, Debug)]
pub enum ResolveError {
    /// The response status was not success-class.
    BadStatus,
    /// The response declared no byte length.
    MissingLength,
    /// Neither the disposition header nor the URL path yields a name.
    NoName,
}

/// The name policy over a whole probe response: a present and non-empty
/// disposition header decides alone; otherwise the URL path does.
pub open spec fn resolved_name_spec(probe: ProbeResponse) -> Option<Seq<u8>> {
    match probe.content_disposition {
        Some(ctd) => if ctd@.len() > 0 {
            disposition_name(ctd@)
        } else {
            path_name(probe.url_path@)
        },
        None => path_name(probe.url_path@),
    }
}

/// Turn a probe response into a `RemoteResource`, or say exactly why not:
/// the status must be success-class, a length must be declared, and a name
/// must be derivable by the name policy.
pub fn resolve_metadata(probe: &ProbeResponse) -> (r: Result<RemoteResource, ResolveError>)
    ensures
        !is_success_code(probe.status) ==> r == Err::<RemoteResource, ResolveError>(
            ResolveError::BadStatus,
        ),
        is_success_code(probe.status) && probe.content_length is None ==> r == Err::<
            RemoteResource,
            ResolveError,
        >(ResolveError::MissingLength),
        is_success_code(probe.status) && probe.content_length is Some && resolved_name_spec(
            *probe,
        ) is None ==> r == Err::<RemoteResource, ResolveError>(ResolveError::NoName),
        is_success_code(probe.status) && probe.content_length is Some && resolved_name_spec(
            *probe,
        ) is Some ==> (r matches Ok(res) && res.canonical_url@ == probe.canonical_url@
            && res.declared_length == probe.content_length.unwrap() && res.resolved_name@
            == resolved_name_spec(*probe).unwrap()),
{
    if !success_status(probe.status) {
        return Err(ResolveError::BadStatus);
    }
    let declared_length = match probe.content_length {
        Some(l) => l,
        None => {
            return Err(ResolveError::MissingLength);
        },
    };
    let name_opt = match &probe.content_disposition {
        Some(ctd) => {
            if ctd.len() > 0 {
                parse_disposition(ctd)
            } else {
                path_file_name(&probe.url_path)
            }
        },
        None => path_file_name(&probe.url_path),
    };
    match name_opt {
        Some(resolved_name) => Ok(
            RemoteResource {
                canonical_url: copy_bytes(&probe.canonical_url),
                declared_length,
                resolved_name,
            },
        ),
        None => Err(ResolveError::NoName),
    }
}

} // verus!
