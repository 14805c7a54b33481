//! Leaves out sources that hold what an earlier source holds. The kind, the
//! size and the hash of a source are asked of the caller, and only where
//! they matter.
use vstd::prelude::*;

use crate::discover::chained;
use crate::duplicates::{
    copy_of, find_copies, law_what_is_a_copy, sizes_that_repeat, Payload,
};
use crate::hash::Digest;
use crate::scan::{source_view, IngestSource, SourceKind};
use crate::scopes::zip_said;
use crate::sources::{payload_of, source_payload_identity, PayloadPart};
use crate::zip::ZipKind;
use crate::Error;

verus! {

/// What is asked about sources to tell copies.
pub struct Contents<Z, L, H> {
    /// The kind of a zip. `None`: no known export is in it.
    pub zip: Z,
    /// The length of a file.
    pub size: L,
    /// The hash of a part of a source. `None`: there is no such part.
    pub digest: H,
}

/// `r` is the length that was said of a file.
pub open spec fn size_said<L: Fn(&str) -> Result<u64, Error>>(
    size: L,
    path: Seq<char>,
    r: Result<u64, Error>,
) -> bool {
    exists|p: &str| p@ == path && #[trigger] call_ensures(size, (p,), r)
}

/// `r` is the hash that was said of a part of a source.
pub open spec fn digest_said<H: Fn(PayloadPart, &str) -> Result<Option<Digest>, Error>>(
    digest: H,
    part: PayloadPart,
    path: Seq<char>,
    r: Result<Option<Digest>, Error>,
) -> bool {
    exists|p: &str| p@ == path && #[trigger] call_ensures(digest, (part, p), r)
}

/// The contents can be asked for.
pub open spec fn contents_answer<
    Z: Fn(&str) -> Option<ZipKind>,
    L: Fn(&str) -> Result<u64, Error>,
    H: Fn(PayloadPart, &str) -> Result<Option<Digest>, Error>,
>(c: Contents<Z, L, H>) -> bool {
    &&& forall|p: &str| #[trigger] call_requires(c.zip, (p,))
    &&& forall|p: &str| #[trigger] call_requires(c.size, (p,))
    &&& forall|part: PayloadPart, p: &str| #[trigger] call_requires(c.digest, (part, p))
}

/// `part` is what is hashed to know a source again.
pub open spec fn part_said<Z: Fn(&str) -> Option<ZipKind>>(
    zip: Z,
    source: IngestSource,
    part: Option<(ZipKind, PayloadPart)>,
) -> bool {
    if source.kind == SourceKind::Zip {
        exists|kind: Option<ZipKind>| #[trigger]
            zip_said(zip, source.path@, kind) && part == payload_of(source.kind, kind)
    } else {
        part == payload_of(source.kind, None)
    }
}

/// `parts` are what is hashed to know sources again.
pub open spec fn parts_said<Z: Fn(&str) -> Option<ZipKind>>(
    zip: Z,
    sources: Seq<IngestSource>,
    parts: Seq<Option<(ZipKind, PayloadPart)>>,
) -> bool {
    parts.len() == sources.len() && forall|i: int|
        0 <= i < parts.len() ==> #[trigger] part_said(zip, sources[i], parts[i])
}

/// A social export is known by its size before it is hashed.
pub open spec fn sized(part: Option<(ZipKind, PayloadPart)>) -> bool {
    match part {
        Some((kind, _)) => kind == ZipKind::Facebook || kind == ZipKind::Twitter,
        None => false,
    }
}

/// `r` is the size of one source, where it is known by its size.
pub open spec fn one_size<L: Fn(&str) -> Result<u64, Error>>(
    size: L,
    source: IngestSource,
    part: Option<(ZipKind, PayloadPart)>,
    r: Result<Seq<Option<u64>>, Error>,
) -> bool {
    if sized(part) {
        exists|n: Result<u64, Error>| #[trigger]
            size_said(size, source.path@, n) && r == (match n {
                Ok(x) => Ok(seq![Some(x)]),
                Err(e) => Err(e),
            })
    } else {
        r == Ok::<Seq<Option<u64>>, Error>(seq![None])
    }
}

/// `r` holds the sizes of the first `n` sources. The first error stops it.
pub open spec fn sizes_said<L: Fn(&str) -> Result<u64, Error>>(
    size: L,
    sources: Seq<IngestSource>,
    parts: Seq<Option<(ZipKind, PayloadPart)>>,
    n: int,
    r: Result<Seq<Option<u64>>, Error>,
) -> bool
    decreases n,
{
    if n <= 0 {
        r == Ok::<Seq<Option<u64>>, Error>(Seq::empty())
    } else {
        exists|a: Result<Seq<Option<u64>>, Error>, b: Result<Seq<Option<u64>>, Error>| #[trigger]
            chained(a, b, r) && sizes_said(size, sources, parts, n - 1, a) && (a is Ok ==> one_size(
                size,
                sources[n - 1],
                parts[n - 1],
                b,
            ))
    }
}

/// The size of source `i` comes more than once.
pub open spec fn repeats(sizes: Seq<Option<u64>>, i: int) -> bool {
    sizes[i] is Some && exists|j: int|
        0 <= j < sizes.len() && j != i && #[trigger] sizes[j] == sizes[i]
}

/// The contents of a source with this hash.
pub open spec fn payload_with(
    source: IngestSource,
    part: Option<(ZipKind, PayloadPart)>,
    size: Option<u64>,
    digest: Option<Digest>,
) -> Option<Payload> {
    match (part, digest) {
        (Some((kind, _)), Some(d)) => Some(
            Payload {
                kind,
                size: match size {
                    Some(x) => x,
                    None => 0,
                },
                digest: d,
                is_zip: source.kind == SourceKind::Zip,
            },
        ),
        _ => None,
    }
}

/// `r` holds the contents of one source. It is not hashed when no other
/// source has its size.
pub open spec fn one_payload<H: Fn(PayloadPart, &str) -> Result<Option<Digest>, Error>>(
    digest: H,
    sources: Seq<IngestSource>,
    parts: Seq<Option<(ZipKind, PayloadPart)>>,
    sizes: Seq<Option<u64>>,
    i: int,
    r: Result<Seq<Option<Payload>>, Error>,
) -> bool {
    if parts[i] is None || (sizes[i] is Some && !repeats(sizes, i)) {
        r == Ok::<Seq<Option<Payload>>, Error>(seq![None])
    } else {
        exists|d: Result<Option<Digest>, Error>| #[trigger]
            digest_said(digest, (parts[i]->0).1, sources[i].path@, d) && r == (match d {
                Ok(x) => Ok(seq![payload_with(sources[i], parts[i], sizes[i], x)]),
                Err(e) => Err(e),
            })
    }
}

/// `r` holds the contents of the first `n` sources. The first error stops
/// it.
pub open spec fn payloads_said<H: Fn(PayloadPart, &str) -> Result<Option<Digest>, Error>>(
    digest: H,
    sources: Seq<IngestSource>,
    parts: Seq<Option<(ZipKind, PayloadPart)>>,
    sizes: Seq<Option<u64>>,
    n: int,
    r: Result<Seq<Option<Payload>>, Error>,
) -> bool
    decreases n,
{
    if n <= 0 {
        r == Ok::<Seq<Option<Payload>>, Error>(Seq::empty())
    } else {
        exists|a: Result<Seq<Option<Payload>>, Error>, b: Result<Seq<Option<Payload>>, Error>|
         #[trigger]
            chained(a, b, r) && payloads_said(digest, sources, parts, sizes, n - 1, a) && (a is Ok
                ==> one_payload(digest, sources, parts, sizes, n - 1, b))
    }
}

/// The sources among the first `n` that are no copy of an earlier one.
pub open spec fn uncopied(
    sources: Seq<IngestSource>,
    payloads: Seq<Option<Payload>>,
    n: int,
) -> Seq<(SourceKind, Seq<char>)>
    decreases n,
{
    if n <= 0 {
        Seq::empty()
    } else {
        let head = uncopied(sources, payloads, n - 1);
        if copy_of(payloads, n - 1) == -1 {
            head.push(source_view(sources[n - 1]))
        } else {
            head
        }
    }
}

proof fn lemma_sizes_stop<L: Fn(&str) -> Result<u64, Error>>(
    size: L,
    sources: Seq<IngestSource>,
    parts: Seq<Option<(ZipKind, PayloadPart)>>,
    k: int,
    n: int,
    e: Error,
)
    requires
        0 <= k <= n,
        sizes_said(size, sources, parts, k, Err(e)),
    ensures
        sizes_said(size, sources, parts, n, Err(e)),
    decreases n,
{
    if k < n {
        lemma_sizes_stop(size, sources, parts, k, n - 1, e);
        let r: Result<Seq<Option<u64>>, Error> = Err(e);
        assert(chained(r, r, r));
    }
}

proof fn lemma_payloads_stop<H: Fn(PayloadPart, &str) -> Result<Option<Digest>, Error>>(
    digest: H,
    sources: Seq<IngestSource>,
    parts: Seq<Option<(ZipKind, PayloadPart)>>,
    sizes: Seq<Option<u64>>,
    k: int,
    n: int,
    e: Error,
)
    requires
        0 <= k <= n,
        payloads_said(digest, sources, parts, sizes, k, Err(e)),
    ensures
        payloads_said(digest, sources, parts, sizes, n, Err(e)),
    decreases n,
{
    if k < n {
        lemma_payloads_stop(digest, sources, parts, sizes, k, n - 1, e);
        let r: Result<Seq<Option<Payload>>, Error> = Err(e);
        assert(chained(r, r, r));
    }
}

fn ask_parts<
    Z: Fn(&str) -> Option<ZipKind>,
    L: Fn(&str) -> Result<u64, Error>,
    H: Fn(PayloadPart, &str) -> Result<Option<Digest>, Error>,
>(c: &Contents<Z, L, H>, sources: &Vec<IngestSource>) -> (r: Vec<Option<(ZipKind, PayloadPart)>>)
    requires
        contents_answer(*c),
    ensures
        parts_said(c.zip, sources@, r@),
{
    let mut out: Vec<Option<(ZipKind, PayloadPart)>> = Vec::new();
    let mut i: usize = 0;
    while i < sources.len()
        invariant
            i <= sources@.len(),
            out@.len() == i,
            contents_answer(*c),
            forall|k: int| 0 <= k < i ==> #[trigger] part_said(c.zip, sources@[k], out@[k]),
        decreases sources.len() - i,
    {
        let one = &sources[i];
        let part = if one.kind == SourceKind::Zip {
            let kind = (c.zip)(&one.path);
            assert(zip_said(c.zip, one.path@, kind));
            source_payload_identity(one.kind, kind)
        } else {
            source_payload_identity(one.kind, None)
        };
        assert(part_said(c.zip, sources@[i as int], part));
        out.push(part);
        i = i + 1;
    }
    out
}

fn is_sized(part: &Option<(ZipKind, PayloadPart)>) -> (r: bool)
    ensures
        r == sized(*part),
{
    match part {
        Some((kind, _)) => *kind == ZipKind::Facebook || *kind == ZipKind::Twitter,
        None => false,
    }
}

fn ask_sizes<
    Z: Fn(&str) -> Option<ZipKind>,
    L: Fn(&str) -> Result<u64, Error>,
    H: Fn(PayloadPart, &str) -> Result<Option<Digest>, Error>,
>(
    c: &Contents<Z, L, H>,
    sources: &Vec<IngestSource>,
    parts: &Vec<Option<(ZipKind, PayloadPart)>>,
) -> (r: Result<Vec<Option<u64>>, Error>)
    requires
        contents_answer(*c),
        parts@.len() == sources@.len(),
    ensures
        r matches Ok(v) ==> v@.len() == sources@.len(),
        sizes_said(
            c.size,
            sources@,
            parts@,
            sources@.len() as int,
            match r {
                Ok(v) => Ok(v@),
                Err(e) => Err(e),
            },
        ),
{
    let mut out: Vec<Option<u64>> = Vec::new();
    let mut i: usize = 0;
    assert(out@ =~= Seq::empty());
    while i < sources.len()
        invariant
            i <= sources@.len(),
            out@.len() == i,
            parts@.len() == sources@.len(),
            contents_answer(*c),
            sizes_said(c.size, sources@, parts@, i as int, Ok(out@)),
        decreases sources.len() - i,
    {
        let ghost held: Result<Seq<Option<u64>>, Error> = Ok(out@);
        let mut size: Option<u64> = None;
        if is_sized(&parts[i]) {
            let n = (c.size)(&sources[i].path);
            assert(size_said(c.size, sources@[i as int].path@, n));
            match n {
                Ok(x) => {
                    size = Some(x);
                },
                Err(e) => {
                    proof {
                        let r: Result<Seq<Option<u64>>, Error> = Err(e);
                        assert(one_size(c.size, sources@[i as int], parts@[i as int], r));
                        assert(chained(held, r, r));
                        assert(sizes_said(c.size, sources@, parts@, i + 1, r));
                        lemma_sizes_stop(
                            c.size,
                            sources@,
                            parts@,
                            i + 1,
                            sources@.len() as int,
                            e,
                        );
                    }
                    return Err(e);
                },
            }
        }
        let ghost one: Result<Seq<Option<u64>>, Error> = Ok(seq![size]);
        assert(one_size(c.size, sources@[i as int], parts@[i as int], one));
        out.push(size);
        proof {
            assert(out@ =~= held->Ok_0 + one->Ok_0);
            assert(chained(held, one, Ok(out@)));
        }
        i = i + 1;
    }
    Ok(out)
}

fn ask_payloads<
    Z: Fn(&str) -> Option<ZipKind>,
    L: Fn(&str) -> Result<u64, Error>,
    H: Fn(PayloadPart, &str) -> Result<Option<Digest>, Error>,
>(
    c: &Contents<Z, L, H>,
    sources: &Vec<IngestSource>,
    parts: &Vec<Option<(ZipKind, PayloadPart)>>,
    sizes: &Vec<Option<u64>>,
) -> (r: Result<Vec<Option<Payload>>, Error>)
    requires
        contents_answer(*c),
        parts@.len() == sources@.len(),
        sizes@.len() == sources@.len(),
    ensures
        r matches Ok(v) ==> v@.len() == sources@.len(),
        payloads_said(
            c.digest,
            sources@,
            parts@,
            sizes@,
            sources@.len() as int,
            match r {
                Ok(v) => Ok(v@),
                Err(e) => Err(e),
            },
        ),
{
    let again = sizes_that_repeat(sizes);
    let mut out: Vec<Option<Payload>> = Vec::new();
    let mut i: usize = 0;
    assert(out@ =~= Seq::empty());
    while i < sources.len()
        invariant
            i <= sources@.len(),
            out@.len() == i,
            parts@.len() == sources@.len(),
            sizes@.len() == sources@.len(),
            again@.len() == sources@.len(),
            contents_answer(*c),
            forall|k: int| 0 <= k < again@.len() ==> #[trigger] again@[k] == repeats(sizes@, k),
            payloads_said(c.digest, sources@, parts@, sizes@, i as int, Ok(out@)),
        decreases sources.len() - i,
    {
        let ghost held: Result<Seq<Option<Payload>>, Error> = Ok(out@);
        let mut payload: Option<Payload> = None;
        assert(again@[i as int] == repeats(sizes@, i as int));
        if let Some((kind, part)) = parts[i] {
            if sizes[i].is_none() || again[i] {
                let d = (c.digest)(part, &sources[i].path);
                assert(digest_said(c.digest, part, sources@[i as int].path@, d));
                match d {
                    Ok(x) => {
                        if let Some(digest) = x {
                            payload = Some(
                                Payload {
                                    kind,
                                    size: match sizes[i] {
                                        Some(n) => n,
                                        None => 0,
                                    },
                                    digest,
                                    is_zip: sources[i].kind == SourceKind::Zip,
                                },
                            );
                        }
                        assert(payload == payload_with(
                            sources@[i as int],
                            parts@[i as int],
                            sizes@[i as int],
                            x,
                        ));
                    },
                    Err(e) => {
                        proof {
                            let r: Result<Seq<Option<Payload>>, Error> = Err(e);
                            assert(one_payload(
                                c.digest,
                                sources@,
                                parts@,
                                sizes@,
                                i as int,
                                r,
                            ));
                            assert(chained(held, r, r));
                            assert(payloads_said(c.digest, sources@, parts@, sizes@, i + 1, r));
                            lemma_payloads_stop(
                                c.digest,
                                sources@,
                                parts@,
                                sizes@,
                                i + 1,
                                sources@.len() as int,
                                e,
                            );
                        }
                        return Err(e);
                    },
                }
            }
        }
        let ghost one: Result<Seq<Option<Payload>>, Error> = Ok(seq![payload]);
        assert(one_payload(c.digest, sources@, parts@, sizes@, i as int, one));
        out.push(payload);
        proof {
            assert(out@ =~= held->Ok_0 + one->Ok_0);
            assert(chained(held, one, Ok(out@)));
        }
        i = i + 1;
    }
    Ok(out)
}

/// `r` holds the sources that are no copy of an earlier one.
pub open spec fn filtered<
    Z: Fn(&str) -> Option<ZipKind>,
    L: Fn(&str) -> Result<u64, Error>,
    H: Fn(PayloadPart, &str) -> Result<Option<Digest>, Error>,
>(
    c: Contents<Z, L, H>,
    sources: Seq<IngestSource>,
    r: Result<Seq<(SourceKind, Seq<char>)>, Error>,
) -> bool {
    let n = sources.len() as int;
    exists|
        parts: Seq<Option<(ZipKind, PayloadPart)>>,
        sizes: Result<Seq<Option<u64>>, Error>,
    |
        #[trigger] parts_said(c.zip, sources, parts) && #[trigger] sizes_said(
            c.size,
            sources,
            parts,
            n,
            sizes,
        ) && match sizes {
            Ok(s) => kept_by(c.digest, sources, parts, s, r),
            Err(e) => r == Err::<Seq<(SourceKind, Seq<char>)>, Error>(e),
        }
}

/// `r` holds the sources that their contents do not show to be copies.
pub open spec fn kept_by<H: Fn(PayloadPart, &str) -> Result<Option<Digest>, Error>>(
    digest: H,
    sources: Seq<IngestSource>,
    parts: Seq<Option<(ZipKind, PayloadPart)>>,
    sizes: Seq<Option<u64>>,
    r: Result<Seq<(SourceKind, Seq<char>)>, Error>,
) -> bool {
    let n = sources.len() as int;
    exists|payloads: Result<Seq<Option<Payload>>, Error>| #[trigger]
        payloads_said(digest, sources, parts, sizes, n, payloads) && r == (match payloads {
            Ok(v) => Ok(uncopied(sources, v, n)),
            Err(e) => Err(e),
        })
}

fn keep_uncopied(sources: &Vec<IngestSource>, payloads: &Vec<Option<Payload>>) -> (r: Vec<
    IngestSource,
>)
    requires
        payloads@.len() == sources@.len(),
    ensures
        r@.map_values(|x: IngestSource| source_view(x)) == uncopied(
            sources@,
            payloads@,
            sources@.len() as int,
        ),
{
    let copies = find_copies(payloads);
    let mut out: Vec<IngestSource> = Vec::new();
    let mut i: usize = 0;
    assert(out@.map_values(|x: IngestSource| source_view(x)) =~= Seq::empty());
    while i < sources.len()
        invariant
            i <= sources@.len(),
            copies@.len() == sources@.len(),
            forall|k: int|
                0 <= k < copies@.len() ==> match #[trigger] copies@[k] {
                    Some(p) => p < k && copy_of(payloads@, k) == p,
                    None => copy_of(payloads@, k) == -1,
                },
            out@.map_values(|x: IngestSource| source_view(x)) == uncopied(
                sources@,
                payloads@,
                i as int,
            ),
        decreases sources.len() - i,
    {
        let copy = copies[i];
        assert(copies@[i as int] == copy);
        if copy.is_none() {
            let ghost held = out@.map_values(|x: IngestSource| source_view(x));
            let one = IngestSource { kind: sources[i].kind, path: sources[i].path.clone() };
            out.push(one);
            assert(out@.map_values(|x: IngestSource| source_view(x)) =~= held.push(
                source_view(sources@[i as int]),
            ));
        }
        i = i + 1;
    }
    out
}

/// The sources that are no copy of an earlier one, in order.
pub fn filter_duplicate_sources<
    Z: Fn(&str) -> Option<ZipKind>,
    L: Fn(&str) -> Result<u64, Error>,
    H: Fn(PayloadPart, &str) -> Result<Option<Digest>, Error>,
>(c: &Contents<Z, L, H>, sources: &Vec<IngestSource>) -> (r: Result<Vec<IngestSource>, Error>)
    requires
        contents_answer(*c),
    ensures
        filtered(
            *c,
            sources@,
            match r {
                Ok(v) => Ok(v@.map_values(|x: IngestSource| source_view(x))),
                Err(e) => Err(e),
            },
        ),
{
    let parts = ask_parts(c, sources);
    match ask_sizes(c, sources, &parts) {
        Ok(sizes) => {
            assert(sizes_said(c.size, sources@, parts@, sources@.len() as int, Ok(sizes@)));
            match ask_payloads(c, sources, &parts, &sizes) {
                Ok(payloads) => {
                    assert(payloads_said(
                        c.digest,
                        sources@,
                        parts@,
                        sizes@,
                        sources@.len() as int,
                        Ok(payloads@),
                    ));
                    let out = keep_uncopied(sources, &payloads);
                    assert(kept_by(
                        c.digest,
                        sources@,
                        parts@,
                        sizes@,
                        Ok(out@.map_values(|x: IngestSource| source_view(x))),
                    ));
                    Ok(out)
                },
                Err(e) => {
                    assert(payloads_said(
                        c.digest,
                        sources@,
                        parts@,
                        sizes@,
                        sources@.len() as int,
                        Err(e),
                    ));
                    assert(kept_by(c.digest, sources@, parts@, sizes@, Err(e)));
                    Err(e)
                },
            }
        },
        Err(e) => {
            assert(sizes_said(c.size, sources@, parts@, sources@.len() as int, Err(e)));
            Err(e)
        },
    }
}

/// The sources that are read: those that copy no other, each of them, and those
/// whose contents are not known.
pub proof fn law_uncopied_sources_are_read(
    sources: Seq<IngestSource>,
    payloads: Seq<Option<Payload>>,
    n: int,
    i: int,
    x: (SourceKind, Seq<char>),
)
    requires
        0 <= i < n <= sources.len(),
        payloads.len() == sources.len(),
    ensures
        copy_of(payloads, i) == -1 ==> uncopied(sources, payloads, n).contains(
            (sources[i].kind, sources[i].path@),
        ),
        payloads[i] is None ==> uncopied(sources, payloads, n).contains(
            (sources[i].kind, sources[i].path@),
        ),
        uncopied(sources, payloads, n).contains(x) ==> exists|k: int|
            0 <= k < n && copy_of(payloads, k) == -1 && x == (
                (#[trigger] sources[k]).kind,
                sources[k].path@,
            ),
    decreases n,
{
    let now = uncopied(sources, payloads, n);
    let head = uncopied(sources, payloads, n - 1);
    if i > 0 {
        law_what_is_a_copy(payloads, i, 0);
    }
    if i < n - 1 {
        law_uncopied_sources_are_read(sources, payloads, n - 1, i, x);
        let y = (sources[i].kind, sources[i].path@);
        if head.contains(y) {
            let j = choose|j: int| 0 <= j < head.len() && head[j] == y;
            assert(now[j] == y);
        }
    } else if copy_of(payloads, i) == -1 {
        assert(now[head.len() as int] == (sources[i].kind, sources[i].path@));
    }
    if now.contains(x) {
        let j = choose|j: int| 0 <= j < now.len() && now[j] == x;
        if j < head.len() {
            assert(head[j] == x);
            if n > 1 {
                law_uncopied_sources_are_read(sources, payloads, n - 1, 0, x);
                let k = choose|k: int|
                    0 <= k < n - 1 && copy_of(payloads, k) == -1 && x == (
                        (#[trigger] sources[k]).kind,
                        sources[k].path@,
                    );
                assert(sources[k].kind == x.0);
            }
        } else {
            assert(sources[n - 1].kind == x.0);
        }
    }
}

/// Two exports of one size are both looked into; one whose size is its own is
/// not. Sizes are asked of Facebook and X exports.
pub proof fn law_repeated_sizes(sizes: Seq<Option<u64>>, i: int, j: int, x: u64)
    requires
        0 <= i < sizes.len(),
        0 <= j < sizes.len(),
        i != j,
    ensures
        sizes[i] == Some(x) && sizes[j] == Some(x) ==> repeats(sizes, i) && repeats(sizes, j),
        sizes[i] is None ==> !repeats(sizes, i),
        (forall|k: int| 0 <= k < sizes.len() && k != i ==> #[trigger] sizes[k] != sizes[i])
            ==> !repeats(sizes, i),
        forall|part: PayloadPart|
            #![trigger sized(Some((ZipKind::Facebook, part)))]
            sized(Some((ZipKind::Facebook, part))) && sized(Some((ZipKind::Twitter, part)))
                && !sized(Some((ZipKind::ChatGpt, part))) && !sized(
                Some((ZipKind::Telegram, part)),
            ),
{
}

/// What is known of the contents of a source: its kind, its size, its digest,
/// and whether it is a zip.
pub proof fn law_payload_of_a_source(
    source: IngestSource,
    kind: ZipKind,
    part: PayloadPart,
    size: u64,
    digest: Digest,
)
    ensures
        (payload_with(source, Some((kind, part)), Some(size), Some(digest)) matches Some(p)
            && p.kind == kind && p.size == size && p.digest == digest && (p.is_zip <==> source.kind
            == SourceKind::Zip)),
        payload_with(source, Some((kind, part)), Some(size), None) is None,
        payload_with(source, None, Some(size), Some(digest)) is None,
{
}

} // verus!
