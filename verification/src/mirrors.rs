use vstd::prelude::*;
use crate::error::Error;
use crate::text::{concat, owned};

verus! {

#[verifier::external_type_specification]
#[verifier::external_body]
pub struct ExUrl(url::Url);

/// Whether `url::Url::parse` accepts `text` as a URL.
pub uninterp spec fn url_parses(text: Seq<char>) -> bool;

/// `url::Url::parse`: the URL `text` holds, or `None` where it is refused.
#[verifier::external_body]
fn parse_url(text: &str) -> (r: Option<url::Url>)
    ensures
        (r is Some) == url_parses(text@),
{
    url::Url::parse(text).ok()
}

/// The URL of each mirror, where it parses, in the order listed; the
/// addresses a mirror resolves to are looked up from these.
pub fn mirror_urls(named_urls: &Vec<NamedUrl>) -> (r: Vec<Option<url::Url>>)
    ensures
        r@.len() == named_urls@.len(),
        forall|i: int| 0 <= i < r@.len() ==> (#[trigger] r@[i] is Some) == url_parses(named_urls@[i].url@),
{
    let mut r: Vec<Option<url::Url>> = Vec::new();
    let mut i: usize = 0;
    while i < named_urls.len()
        invariant
            i <= named_urls@.len(),
            r@.len() == i,
            forall|k: int| 0 <= k < i ==> (#[trigger] r@[k] is Some) == url_parses(named_urls@[k].url@),
        decreases named_urls.len() - i,
    {
        r.push(parse_url(named_urls[i].url.as_str()));
        i = i + 1;
    }
    r
}

/// A name and URL of a mirror, as listed in the release information.
#[derive(Debug)]
pub struct NamedUrl {
    pub name: String,
    pub url: String,
}

/// A download mirror.
///
/// Speeds are kept as the milliseconds the 10 kB test file took
/// (`speed_millis`; the speed is 10000 / `speed_millis` bytes per ms) and
/// the latency in microseconds (`ping_micros`).
#[derive(Debug)]
pub struct Mirror {
    /// Position of the mirror in its [`Mirrors`] list
    pub slot: usize,
    /// Base URL of the mirror
    pub base: String,
    /// Version folder of the patch on the mirror
    pub version: String,
    /// Socket addresses the mirror's host resolved to
    pub ip: Vec<String>,
    /// Milliseconds the speed test took; 10 000 before any test
    pub speed_millis: u64,
    /// Microseconds the speed test took; 1 000 000 before any test
    pub ping_micros: u64,
    /// Number of failed requests
    pub error_count: u16,
    /// Whether the mirror may be used
    pub enabled: bool,
    /// Number of handed-out copies that are still in use
    pub in_use: usize,
}

pub struct MirrorView {
    pub slot: nat,
    pub base: Seq<char>,
    pub version: Seq<char>,
    pub ip: Seq<Seq<char>>,
    pub speed_millis: nat,
    pub ping_micros: nat,
    pub error_count: u16,
    pub enabled: bool,
    pub in_use: nat,
}

impl View for Mirror {
    type V = MirrorView;

    open spec fn view(&self) -> MirrorView {
        MirrorView {
            slot: self.slot as nat,
            base: self.base@,
            version: self.version@,
            ip: self.ip.deep_view(),
            speed_millis: self.speed_millis as nat,
            ping_micros: self.ping_micros as nat,
            error_count: self.error_count,
            enabled: self.enabled,
            in_use: self.in_use as nat,
        }
    }
}

/// Copies of a list of strings.
pub fn copy_strings(v: &Vec<String>) -> (r: Vec<String>)
    ensures
        r.deep_view() == v.deep_view(),
{
    let mut r: Vec<String> = Vec::new();
    let mut i: usize = 0;
    while i < v.len()
        invariant
            i <= v@.len(),
            r.deep_view() == v.deep_view().subrange(0, i as int),
        decreases v.len() - i,
    {
        let ghost prev = r.deep_view();
        let c = v[i].clone();
        r.push(c);
        proof {
            assert(r.deep_view() =~= prev.push(c@));
            assert(r.deep_view() =~= v.deep_view().subrange(0, i + 1));
        }
        i = i + 1;
    }
    proof { assert(v.deep_view().subrange(0, v@.len() as int) =~= v.deep_view()); }
    r
}

impl Mirror {
    /// A field-by-field copy.
    pub fn copy(&self) -> (r: Mirror)
        ensures
            r@ == self@,
    {
        Mirror {
            slot: self.slot,
            base: self.base.clone(),
            version: self.version.clone(),
            ip: copy_strings(&self.ip),
            speed_millis: self.speed_millis,
            ping_micros: self.ping_micros,
            error_count: self.error_count,
            enabled: self.enabled,
            in_use: self.in_use,
        }
    }

    /// `<base><version>`: the folder of the patch on this mirror.
    pub fn address(&self) -> (r: String)
        ensures
            r@ == self.base@ + self.version@,
    {
        concat(&self.base, self.version.as_str())
    }

    /// The URL of a file of the mirror: `<base><path>`.
    pub fn file_url(&self, path: &str) -> (r: String)
        ensures
            r@ == self.base@ + path@,
    {
        concat(&self.base, path)
    }

    /// The URL of a file of the patch: `<base><version>/<path>`.
    pub fn patchfile_url(&self, path: &str) -> (r: String)
        ensures
            r@ == self.base@ + self.version@ + "/"@ + path@,
    {
        let mut r = concat(&self.base, self.version.as_str());
        r.append("/");
        r.append(path);
        r
    }

    /// The result of the speed test, given the `content-length` header of the
    /// answer for `10kb_file` and the microseconds the download took: the
    /// mirror with its new speed and latency, or why the test failed.
    pub fn tested(&self, content_length: Option<&String>, elapsed_micros: u64) -> (r: Result<Mirror, Error>)
        ensures
            content_length is None ==> r matches Err(Error::Message(_)),
            content_length matches Some(c) && c@ != "10000"@ ==> r matches Err(Error::InvalidServer()),
            content_length matches Some(c) && c@ == "10000"@ ==> (r matches Ok(m) && m@ == (MirrorView {
                speed_millis: (elapsed_micros / 1000) as nat,
                ping_micros: elapsed_micros as nat,
                ..self@
            })),
    {
        match content_length {
            None => Err(Error::Message(owned("No header named: content_length"))),
            Some(c) => {
                let expected = owned("10000");
                if *c != expected {
                    Err(Error::InvalidServer())
                } else {
                    let mut m = self.copy();
                    m.speed_millis = elapsed_micros / 1000;
                    m.ping_micros = elapsed_micros;
                    Ok(m)
                }
            },
        }
    }
}

} // verus!

verus! {

/// The mirrors made from the release information: those whose URL parsed and
/// resolved (`resolved[i]` holds the addresses of `urls[i]`), in order.
pub open spec fn spec_initial_mirrors(
    urls: Seq<Seq<char>>,
    resolved: Seq<Option<Seq<Seq<char>>>>,
    version: Seq<char>,
) -> Seq<MirrorView>
    decreases urls.len(),
{
    if urls.len() == 0 {
        seq![]
    } else {
        let before = spec_initial_mirrors(urls.drop_last(), resolved.subrange(0, urls.len() - 1), version);
        match resolved[urls.len() - 1] {
            Some(ip) => before.push(MirrorView {
                slot: before.len(),
                base: urls.last(),
                version,
                ip,
                speed_millis: 10000,
                ping_micros: 1000000,
                error_count: 0,
                enabled: true,
                in_use: 0,
            }),
            None => before,
        }
    }
}

/// `sorted` with `m` inserted after every element that is at least as fast.
pub open spec fn spec_insert_by_speed(sorted: Seq<MirrorView>, m: MirrorView) -> Seq<MirrorView>
    decreases sorted.len(),
{
    if sorted.len() == 0 {
        seq![m]
    } else if sorted.last().speed_millis <= m.speed_millis {
        sorted.push(m)
    } else {
        spec_insert_by_speed(sorted.drop_last(), m).push(sorted.last())
    }
}

/// Stable sort by speed, fastest (fewest milliseconds) first.
pub open spec fn spec_sort_by_speed(s: Seq<MirrorView>) -> Seq<MirrorView>
    decreases s.len(),
{
    if s.len() == 0 {
        seq![]
    } else {
        spec_insert_by_speed(spec_sort_by_speed(s.drop_last()), s.last())
    }
}

/// The mirrors that passed their speed test, in order.
pub open spec fn spec_passed(results: Seq<Option<MirrorView>>) -> Seq<MirrorView>
    decreases results.len(),
{
    if results.len() == 0 {
        seq![]
    } else {
        let before = spec_passed(results.drop_last());
        match results.last() {
            Some(m) => before.push(m),
            None => before,
        }
    }
}

/// After a speed test: the mirrors that passed, fastest first, numbered by
/// position, with those more than four times slower than the fastest disabled.
pub open spec fn spec_after_test(results: Seq<Option<MirrorView>>) -> Seq<MirrorView> {
    let sorted = spec_sort_by_speed(spec_passed(results));
    Seq::new(sorted.len(), |k: int| MirrorView {
        slot: k as nat,
        enabled: sorted[k].enabled && !(sorted[k].speed_millis > 4 * sorted[0].speed_millis),
        ..sorted[k]
    })
}

/// The first enabled mirror with the fewest copies in use, if any is enabled.
pub open spec fn spec_least_used(s: Seq<MirrorView>) -> Option<int>
    decreases s.len(),
{
    if s.len() == 0 {
        None
    } else {
        let before = spec_least_used(s.drop_last());
        let last = s.len() - 1;
        if !s.last().enabled {
            before
        } else {
            match before {
                None => Some(last),
                Some(i) => if s.last().in_use < s[i].in_use { Some(last) } else { Some(i) },
            }
        }
    }
}

/// The mirrors after one more copy of mirror `i` was handed out (the count
/// of copies in use saturates).
pub open spec fn spec_take(s: Seq<MirrorView>, i: int) -> Seq<MirrorView> {
    s.update(i, MirrorView {
        in_use: if s[i].in_use == usize::MAX { s[i].in_use } else { s[i].in_use + 1 },
        ..s[i]
    })
}

/// The mirrors after a copy of mirror `i` was given back (the count of
/// copies in use does not go below zero).
pub open spec fn spec_give_back(s: Seq<MirrorView>, i: int) -> Seq<MirrorView> {
    s.update(i, MirrorView {
        in_use: if s[i].in_use == 0 { 0 } else { (s[i].in_use - 1) as nat },
        ..s[i]
    })
}

/// The list of mirrors of a patch.
pub struct Mirrors {
    mirrors: Vec<Mirror>,
}

impl View for Mirrors {
    type V = Seq<MirrorView>;

    closed spec fn view(&self) -> Seq<MirrorView> {
        self.mirrors@.map_values(|m: Mirror| m@)
    }
}

} // verus!

verus! {

impl Mirrors {
    /// Mirrors are numbered by their position.
    pub closed spec fn wf(&self) -> bool {
        forall|i: int| 0 <= i < self.mirrors@.len() ==> #[trigger] self.mirrors@[i].slot == i
    }

    /// Builds the mirror list from the release information: `resolved[i]` holds
    /// the socket addresses of `named_urls[i]`, or `None` when its URL did not
    /// parse or resolve; only resolved mirrors are kept. Each mirror's folder is
    /// `<url><version>`.
    pub fn new(named_urls: Vec<NamedUrl>, resolved: Vec<Option<Vec<String>>>, version: String) -> (r: Mirrors)
        requires
            named_urls@.len() == resolved@.len(),
        ensures
            r.wf(),
            r@ == spec_initial_mirrors(named_urls@.map_values(|n: NamedUrl| n.url@), resolved.deep_view(), version@),
    {
        let ghost urls = named_urls@.map_values(|n: NamedUrl| n.url@);
        let ghost res = resolved.deep_view();
        let mut mirrors: Vec<Mirror> = Vec::new();
        let mut i: usize = 0;
        while i < named_urls.len()
            invariant
                i <= named_urls@.len(),
                named_urls@.len() == resolved@.len(),
                urls == named_urls@.map_values(|n: NamedUrl| n.url@),
                res == resolved.deep_view(),
                forall|k: int| 0 <= k < mirrors@.len() ==> #[trigger] mirrors@[k].slot == k,
                mirrors@.map_values(|m: Mirror| m@) == spec_initial_mirrors(urls.subrange(0, i as int),
                    res.subrange(0, i as int), version@),
            decreases named_urls.len() - i,
        {
            proof {
                assert(urls.subrange(0, i + 1).drop_last() =~= urls.subrange(0, i as int));
                assert(res.subrange(0, i + 1).subrange(0, i as int) =~= res.subrange(0, i as int));
            }
            match &resolved[i] {
                Some(ip) => {
                    let ghost prev = mirrors@;
                    let m = Mirror {
                        slot: mirrors.len(),
                        base: named_urls[i].url.clone(),
                        version: version.clone(),
                        ip: copy_strings(ip),
                        speed_millis: 10000,
                        ping_micros: 1000000,
                        error_count: 0,
                        enabled: true,
                        in_use: 0,
                    };
                    mirrors.push(m);
                    proof {
                        assert(mirrors@ =~= prev.push(m));
                        assert(mirrors@.map_values(|m: Mirror| m@) =~= prev.map_values(|m: Mirror| m@).push(m@));
                    }
                },
                None => {},
            }
            i = i + 1;
        }
        proof {
            assert(urls.subrange(0, i as int) =~= urls);
            assert(res.subrange(0, i as int) =~= res);
        }
        Mirrors { mirrors }
    }

    /// Whether there are no mirrors at all.
    pub fn is_empty(&self) -> (r: bool)
        ensures
            r == (self@.len() == 0),
    {
        self.mirrors.len() == 0
    }

    /// The mirror at position `i`.
    pub fn get(&self, i: usize) -> (r: &Mirror)
        requires
            i < self@.len(),
        ensures
            r@ == self@[i as int],
    {
        &self.mirrors[i]
    }

    /// The number of mirrors.
    pub fn len(&self) -> (r: usize)
        ensures
            r == self@.len(),
    {
        self.mirrors.len()
    }

    /// Counts a failed request of `mirror` (the count wraps around at
    /// `u16::MAX`); the request that finds three earlier failures disables it.
    pub fn increment_error_count(&mut self, mirror: &Mirror)
        requires
            old(self).wf(),
            mirror.slot < old(self)@.len(),
        ensures
            final(self).wf(),
            final(self)@ == old(self)@.update(mirror.slot as int, MirrorView {
                error_count: if old(self)@[mirror.slot as int].error_count == u16::MAX { 0 }
                    else { (old(self)@[mirror.slot as int].error_count + 1) as u16 },
                enabled: old(self)@[mirror.slot as int].enabled && old(self)@[mirror.slot as int].error_count != 3,
                ..old(self)@[mirror.slot as int]
            }),
    {
        let i = mirror.slot;
        let ghost old_v = self.mirrors@;
        let mut m = self.mirrors.remove(i);
        let previous = m.error_count;
        m.error_count = if previous == u16::MAX { 0 } else { previous + 1 };
        if previous == 3 {
            m.enabled = false;
        }
        self.mirrors.insert(i, m);
        proof {
            assert(self.mirrors@ =~= old_v.update(i as int, m));
            assert(self@ =~= old(self)@.update(i as int, m@));
            assert forall|k: int| 0 <= k < self.mirrors@.len() implies #[trigger] self.mirrors@[k].slot == k by {
                if k != i { assert(self.mirrors@[k] == old_v[k]); }
            }
        }
    }

    fn set_enabled(&mut self, i: usize, enabled: bool)
        requires
            old(self).wf(),
            i < old(self)@.len(),
        ensures
            final(self).wf(),
            final(self)@ == old(self)@.update(i as int, MirrorView { enabled, ..old(self)@[i as int] }),
    {
        let ghost old_v = self.mirrors@;
        let mut m = self.mirrors.remove(i);
        m.enabled = enabled;
        self.mirrors.insert(i, m);
        proof {
            assert(self.mirrors@ =~= old_v.update(i as int, m));
            assert(self@ =~= old(self)@.update(i as int, m@));
            assert forall|k: int| 0 <= k < self.mirrors@.len() implies #[trigger] self.mirrors@[k].slot == k by {
                if k != i { assert(self.mirrors@[k] == old_v[k]); }
            }
        }
    }

    /// Stops handing out `mirror`.
    pub fn remove(&mut self, mirror: &Mirror)
        requires
            old(self).wf(),
            mirror.slot < old(self)@.len(),
        ensures
            final(self).wf(),
            final(self)@ == old(self)@.update(mirror.slot as int, MirrorView { enabled: false, ..old(self)@[mirror.slot as int] }),
    {
        self.set_enabled(mirror.slot, false)
    }

    /// Stops handing out the mirror at position `entry`.
    pub fn disable(&mut self, entry: usize)
        requires
            old(self).wf(),
            entry < old(self)@.len(),
        ensures
            final(self).wf(),
            final(self)@ == old(self)@.update(entry as int, MirrorView { enabled: false, ..old(self)@[entry as int] }),
    {
        self.set_enabled(entry, false)
    }
}

} // verus!

verus! {

impl Mirrors {
    /// Hands out a copy of the first enabled mirror with the fewest copies in
    /// use, counting the new copy (the count saturates at `usize::MAX`).
    pub fn get_mirror(&mut self) -> (r: Result<Mirror, Error>)
        requires
            old(self).wf(),
        ensures
            final(self).wf(),
            spec_least_used(old(self)@) is None ==> {
                &&& final(self)@ == old(self)@
                &&& r matches Err(Error::NoMirrors())
            },
            spec_least_used(old(self)@) matches Some(i) ==> {
                &&& final(self)@ == spec_take(old(self)@, i)
                &&& r matches Ok(m) && m@ == final(self)@[i]
            },
    {
        let ghost v = self@;
        let mut best: Option<usize> = None;
        let mut k: usize = 0;
        while k < self.mirrors.len()
            invariant
                k <= self.mirrors@.len(),
                v == self@,
                match best { Some(b) => spec_least_used(v.subrange(0, k as int)) == Some(b as int),
                    None => spec_least_used(v.subrange(0, k as int)) is None },
                best matches Some(b) ==> b < k,
            decreases self.mirrors.len() - k,
        {
            proof {
                assert(v.subrange(0, k + 1).drop_last() =~= v.subrange(0, k as int));
                assert(v.subrange(0, k + 1).last() == v[k as int]);
            }
            if self.mirrors[k].enabled {
                best = match best {
                    None => Some(k),
                    Some(b) => if self.mirrors[k].in_use < self.mirrors[b].in_use { Some(k) } else { Some(b) },
                };
            }
            k = k + 1;
        }
        proof { assert(v.subrange(0, k as int) =~= v); }
        match best {
            None => Err(Error::NoMirrors()),
            Some(i) => {
                let ghost old_v = self.mirrors@;
                let mut m = self.mirrors.remove(i);
                if m.in_use < usize::MAX {
                    m.in_use = m.in_use + 1;
                }
                let out = m.copy();
                self.mirrors.insert(i, m);
                proof {
                    assert(self.mirrors@ =~= old_v.update(i as int, m));
                    assert(self@ =~= old(self)@.update(i as int, m@));
                    assert forall|j: int| 0 <= j < self.mirrors@.len() implies #[trigger] self.mirrors@[j].slot == j by {
                        if j != i { assert(self.mirrors@[j] == old_v[j]); }
                    }
                }
                Ok(out)
            },
        }
    }

    /// Gives back a copy obtained from [`Mirrors::get_mirror`]: one copy fewer is in use.
    pub fn release(&mut self, mirror: &Mirror)
        requires
            old(self).wf(),
            mirror.slot < old(self)@.len(),
        ensures
            final(self).wf(),
            final(self)@ == spec_give_back(old(self)@, mirror.slot as int),
    {
        let i = mirror.slot;
        let ghost old_v = self.mirrors@;
        let mut m = self.mirrors.remove(i);
        if m.in_use > 0 {
            m.in_use = m.in_use - 1;
        }
        self.mirrors.insert(i, m);
        proof {
            assert(self.mirrors@ =~= old_v.update(i as int, m));
            assert(self@ =~= old(self)@.update(i as int, m@));
            assert forall|j: int| 0 <= j < self.mirrors@.len() implies #[trigger] self.mirrors@[j].slot == j by {
                if j != i { assert(self.mirrors@[j] == old_v[j]); }
            }
        }
    }
}

} // verus!

verus! {

/// Inserting by speed is inserting at the position after the last slower-or-equal suffix scan.
proof fn lemma_insert_step(s: Seq<MirrorView>, m: MirrorView, p: int)
    requires
        0 < p <= s.len(),
        s[p - 1].speed_millis > m.speed_millis,
    ensures
        spec_insert_by_speed(s.subrange(0, p), m) + s.subrange(p, s.len() as int)
            == spec_insert_by_speed(s.subrange(0, p - 1), m) + s.subrange(p - 1, s.len() as int),
{
    let a = s.subrange(0, p);
    assert(a.drop_last() =~= s.subrange(0, p - 1));
    assert(a.last() == s[p - 1]);
    assert(spec_insert_by_speed(a, m) == spec_insert_by_speed(s.subrange(0, p - 1), m).push(s[p - 1]));
    assert(s.subrange(p - 1, s.len() as int) =~= seq![s[p - 1]] + s.subrange(p, s.len() as int));
    assert(spec_insert_by_speed(s.subrange(0, p - 1), m).push(s[p - 1]) + s.subrange(p, s.len() as int)
        =~= spec_insert_by_speed(s.subrange(0, p - 1), m) + (seq![s[p - 1]] + s.subrange(p, s.len() as int)));
}

/// Inserts `m` into `sorted` after every element that is at least as fast.
fn insert_by_speed(sorted: &mut Vec<Mirror>, m: Mirror)
    ensures
        final(sorted)@.map_values(|x: Mirror| x@) == spec_insert_by_speed(old(sorted)@.map_values(|x: Mirror| x@), m@),
{
    let ghost s = sorted@.map_values(|x: Mirror| x@);
    let mut p = sorted.len();
    proof {
        assert(s.subrange(0, p as int) =~= s);
        assert(s.subrange(p as int, s.len() as int) =~= Seq::<MirrorView>::empty());
        assert(spec_insert_by_speed(s, m@) + Seq::<MirrorView>::empty() =~= spec_insert_by_speed(s, m@));
    }
    while p > 0 && sorted[p - 1].speed_millis > m.speed_millis
        invariant
            p <= sorted@.len(),
            s == sorted@.map_values(|x: Mirror| x@),
            spec_insert_by_speed(s, m@) == spec_insert_by_speed(s.subrange(0, p as int), m@) + s.subrange(p as int, s.len() as int),
        decreases p,
    {
        proof { lemma_insert_step(s, m@, p as int); }
        p = p - 1;
    }
    proof {
        let a = s.subrange(0, p as int);
        if p > 0 {
            assert(a.last() == s[p - 1]);
            assert(spec_insert_by_speed(a, m@) == a.push(m@));
        } else {
            assert(a.len() == 0);
            assert(spec_insert_by_speed(a, m@) == seq![m@]);
            assert(a.push(m@) =~= seq![m@]);
        }
    }
    let ghost mv = m@;
    sorted.insert(p, m);
    proof {
        assert(sorted@.map_values(|x: Mirror| x@) =~= s.subrange(0, p as int).push(mv) + s.subrange(p as int, s.len() as int));
    }
}

impl Mirrors {
    /// Replaces the mirrors by the results of their speed tests (see
    /// [`Mirror::tested`]): those that passed, fastest first (a stable sort),
    /// numbered by position; those more than four times slower than the
    /// fastest are disabled.
    pub fn apply_test_results(&mut self, results: Vec<Result<Mirror, Error>>)
        ensures
            final(self).wf(),
            final(self)@ == spec_after_test(results@.map_values(|r: Result<Mirror, Error>| match r {
                Ok(m) => Some(m@),
                Err(_) => None,
            })),
    {
        let ghost rv = results@.map_values(|r: Result<Mirror, Error>| match r {
            Ok(m) => Some(m@),
            Err(_) => None,
        });
        let mut passed: Vec<Mirror> = Vec::new();
        let mut i: usize = 0;
        while i < results.len()
            invariant
                i <= results@.len(),
                rv == results@.map_values(|r: Result<Mirror, Error>| match r { Ok(m) => Some(m@), Err(_) => None }),
                passed@.map_values(|x: Mirror| x@) == spec_passed(rv.subrange(0, i as int)),
            decreases results.len() - i,
        {
            proof {
                assert(rv.subrange(0, i + 1).drop_last() =~= rv.subrange(0, i as int));
                assert(rv.subrange(0, i + 1).last() == rv[i as int]);
            }
            match &results[i] {
                Ok(m) => {
                    let ghost prev = passed@;
                    let c = m.copy();
                    passed.push(c);
                    proof {
                        assert(passed@ =~= prev.push(c));
                        assert(passed@.map_values(|x: Mirror| x@) =~= prev.map_values(|x: Mirror| x@).push(c@));
                    }
                },
                Err(_) => {},
            }
            i = i + 1;
        }
        proof { assert(rv.subrange(0, i as int) =~= rv); }
        let ghost pv = passed@.map_values(|x: Mirror| x@);
        let mut sorted: Vec<Mirror> = Vec::new();
        let mut j: usize = 0;
        while j < passed.len()
            invariant
                j <= passed@.len(),
                pv == passed@.map_values(|x: Mirror| x@),
                sorted@.map_values(|x: Mirror| x@) == spec_sort_by_speed(pv.subrange(0, j as int)),
            decreases passed.len() - j,
        {
            proof {
                assert(pv.subrange(0, j + 1).drop_last() =~= pv.subrange(0, j as int));
                assert(pv.subrange(0, j + 1).last() == pv[j as int]);
            }
            let c = passed[j].copy();
            insert_by_speed(&mut sorted, c);
            j = j + 1;
        }
        proof { assert(pv.subrange(0, j as int) =~= pv); }
        let ghost sv = sorted@.map_values(|x: Mirror| x@);
        let mut out: Vec<Mirror> = Vec::new();
        let best: u128 = if sorted.len() > 0 { sorted[0].speed_millis as u128 } else { 0 };
        let mut k: usize = 0;
        while k < sorted.len()
            invariant
                k <= sorted@.len(),
                sv == sorted@.map_values(|x: Mirror| x@),
                sv.len() > 0 ==> best == sv[0].speed_millis,
                out@.len() == k,
                forall|a: int| 0 <= a < k ==> #[trigger] out@[a]@ == (MirrorView {
                    slot: a as nat,
                    enabled: sv[a].enabled && !(sv[a].speed_millis > 4 * sv[0].speed_millis),
                    ..sv[a]
                }),
            decreases sorted.len() - k,
        {
            let mut m = sorted[k].copy();
            m.slot = k;
            if (m.speed_millis as u128) > 4 * best {
                m.enabled = false;
            }
            out.push(m);
            k = k + 1;
        }
        proof {
            assert(out@.map_values(|x: Mirror| x@) =~= spec_after_test(rv));
            assert forall|a: int| 0 <= a < out@.len() implies #[trigger] out@[a].slot == a by {
                assert(out@[a]@.slot == a);
            }
        }
        self.mirrors = out;
    }
}

} // verus!
