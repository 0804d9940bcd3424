//! Cache discipline: a quote is never served across differing role headers.
//!
//! A response that bears a quote, or that is authenticated, is not stored at all; and
//! every response varies on both headers that a quote is built from.

use vstd::prelude::*;

use crate::channel::text_option;
use crate::rail::texts;

verus! {

/// The request header by which a client says that it understands quotes.
pub const CAPABILITY_HEADER: &'static str = "PayTP";

/// The request header that carries the asserted roles.
pub const ROLES_HEADER: &'static str = "PayTP-Roles";

/// The value that keeps a response out of every cache.
pub const NO_STORE: &'static str = "no-store";

/// The response headers that a cache goes by.
#[derive(Debug, Clone, PartialEq, Eq)]
pub struct ResponseHeaders {
    /// `Cache-Control`, if set.
    pub cache_control: Option<String>,
    /// The headers that the response varies on.
    pub vary: Vec<String>,
}

/// What [`ResponseHeaders`] say.
#[verifier::ext_equal]
pub struct HeadersView {
    pub cache_control: Option<Seq<char>>,
    pub vary: Seq<Seq<char>>,
}

impl View for ResponseHeaders {
    type V = HeadersView;

    open spec fn view(&self) -> HeadersView {
        HeadersView { cache_control: text_option(self.cache_control), vary: texts(self.vary@) }
    }
}

/// Whether a response is kept out of every cache.
pub open spec fn no_store(h: HeadersView) -> bool {
    h.cache_control == Some(NO_STORE@)
}

/// The headers of a response that bears a quote.
pub open spec fn quote_headers() -> HeadersView {
    HeadersView {
        cache_control: Some(NO_STORE@),
        vary: seq![CAPABILITY_HEADER@, ROLES_HEADER@],
    }
}

impl ResponseHeaders {
    /// The headers of a response that bears a quote: not stored, and varying on both
    /// headers.
    pub fn quote_402() -> (h: ResponseHeaders)
        ensures
            h@ == quote_headers(),
    {
        let mut vary: Vec<String> = Vec::new();
        vary.push(CAPABILITY_HEADER.to_owned());
        vary.push(ROLES_HEADER.to_owned());
        let h: ResponseHeaders = ResponseHeaders { cache_control: Some(NO_STORE.to_owned()), vary };
        assert(h@.vary =~= quote_headers().vary);
        h
    }

    /// The headers of an authenticated response: the same.
    pub fn authenticated() -> (h: ResponseHeaders)
        ensures
            h@ == quote_headers(),
    {
        Self::quote_402()
    }

    /// Whether the response is kept out of every cache.
    pub fn is_no_store(&self) -> (r: bool)
        ensures
            r == no_store(self@),
    {
        match &self.cache_control {
            Some(s) => *s == NO_STORE.to_owned(),
            None => false,
        }
    }
}

/// The value that a request has for a header that a response varies on; every other
/// header counts as empty.
pub open spec fn header_value(h: Seq<char>, cap: Seq<char>, roles: Seq<char>) -> Seq<char> {
    if h == CAPABILITY_HEADER@ {
        cap
    } else if h == ROLES_HEADER@ {
        roles
    } else {
        Seq::empty()
    }
}

/// The key under which a request finds a response: the URL, and then each header that
/// the response varies on with the request's value of it. The parts stand apart, so
/// that no value can pass for another part.
pub open spec fn cache_key(url: Seq<char>, vary: Seq<Seq<char>>, cap: Seq<char>, roles: Seq<char>) -> Seq<
    Seq<char>,
>
    decreases vary.len(),
{
    if vary.len() == 0 {
        seq![url]
    } else {
        cache_key(url, vary.drop_last(), cap, roles).push(vary.last()).push(
            header_value(vary.last(), cap, roles),
        )
    }
}

/// Whether two requests have the same value of every header of `vary`.
pub open spec fn same_values(
    vary: Seq<Seq<char>>,
    cap1: Seq<char>,
    roles1: Seq<char>,
    cap2: Seq<char>,
    roles2: Seq<char>,
) -> bool {
    forall|i: int|
        0 <= i < vary.len() ==> header_value(#[trigger] vary[i], cap1, roles1) == header_value(
            vary[i],
            cap2,
            roles2,
        )
}

/// A stored response.
#[derive(Debug)]
pub struct CacheEntry {
    /// The key it is found under.
    pub key: Vec<String>,
    pub headers: ResponseHeaders,
    pub body: String,
}

/// What a [`CacheEntry`] says.
#[verifier::ext_equal]
pub struct EntryView {
    pub key: Seq<Seq<char>>,
    pub headers: HeadersView,
    pub body: Seq<char>,
}

impl View for CacheEntry {
    type V = EntryView;

    open spec fn view(&self) -> EntryView {
        EntryView { key: texts(self.key@), headers: self.headers@, body: self.body@ }
    }
}

/// A cache between payer and merchant that honors the response headers.
pub struct CacheSim {
    /// The stored responses.
    pub entries: Vec<CacheEntry>,
    /// How often a request was served from the cache.
    pub hits: usize,
    /// How often a request went to the origin.
    pub misses: usize,
}

/// Whether a stored response answers a request.
pub open spec fn answers(e: EntryView, url: Seq<char>, cap: Seq<char>, roles: Seq<char>) -> bool {
    e.key == cache_key(url, e.headers.vary, cap, roles)
}

/// Whether some stored response answers a request.
pub open spec fn answered(entries: Seq<EntryView>, url: Seq<char>, cap: Seq<char>, roles: Seq<char>) -> bool {
    exists|i: int| 0 <= i < entries.len() && answers(#[trigger] entries[i], url, cap, roles)
}

/// The stored responses with another one, in place of one under the same key.
pub open spec fn with_entry(entries: Seq<EntryView>, e: EntryView) -> Seq<EntryView>
    decreases entries.len(),
{
    if entries.len() == 0 {
        seq![e]
    } else if entries[0].key == e.key {
        seq![e] + entries.drop_first()
    } else {
        seq![entries[0]] + with_entry(entries.drop_first(), e)
    }
}

/// The cache key of a request.
pub fn key(url: &str, vary: &Vec<String>, cap: &str, roles: &str) -> (k: Vec<String>)
    ensures
        texts(k@) == cache_key(url@, texts(vary@), cap@, roles@),
{
    let ghost all: Seq<Seq<char>> = texts(vary@);
    let mut k: Vec<String> = Vec::new();
    k.push(url.to_owned());
    assert(texts(k@) =~= seq![url@]);
    assert(all.take(0) =~= Seq::empty());
    let mut i: usize = 0;
    while i < vary.len()
        invariant
            i <= vary@.len(),
            all == texts(vary@),
            texts(k@) == cache_key(url@, all.take(i as int), cap@, roles@),
        decreases vary@.len() - i,
    {
        let ghost before: Seq<Seq<char>> = texts(k@);
        let h: &String = &vary[i];
        let value: &str = if *h == CAPABILITY_HEADER.to_owned() {
            cap
        } else if *h == ROLES_HEADER.to_owned() {
            roles
        } else {
            proof {
                reveal_strlit("");
                assert(""@ =~= Seq::empty());
            }
            ""
        };
        k.push(h.clone());
        k.push(value.to_owned());
        proof {
            let next = all.take(i + 1);
            assert(next.drop_last() =~= all.take(i as int));
            assert(next.last() == h@);
            assert(value@ =~= header_value(h@, cap@, roles@));
            assert(texts(k@) =~= before.push(h@).push(value@));
        }
        i = i + 1;
    }
    assert(all.take(vary@.len() as int) =~= all);
    k
}

fn same_key(a: &Vec<String>, b: &Vec<String>) -> (r: bool)
    ensures
        r == (texts(a@) == texts(b@)),
{
    let ghost (s, t) = (texts(a@), texts(b@));
    if a.len() != b.len() {
        assert(s.len() != t.len());
        return false;
    }
    let mut i: usize = 0;
    while i < a.len()
        invariant
            i <= a@.len(),
            a@.len() == b@.len(),
            s == texts(a@),
            t == texts(b@),
            forall|j: int| 0 <= j < i ==> #[trigger] s[j] == t[j],
        decreases a@.len() - i,
    {
        if a[i] != b[i] {
            assert(s[i as int] != t[i as int]);
            return false;
        }
        assert(s[i as int] == t[i as int]);
        i = i + 1;
    }
    assert(s =~= t);
    true
}

impl CacheSim {
    /// The stored responses.
    pub open spec fn entries(&self) -> Seq<EntryView> {
        self.entries@.map_values(|e: CacheEntry| e@)
    }

    /// An empty cache.
    pub fn new() -> (c: CacheSim)
        ensures
            c.entries() == Seq::<EntryView>::empty(),
            c.hits == 0,
            c.misses == 0,
    {
        let c: CacheSim = CacheSim { entries: Vec::new(), hits: 0, misses: 0 };
        assert(c.entries() =~= Seq::<EntryView>::empty());
        c
    }

    fn find(&self, url: &str, cap: &str, roles: &str) -> (r: Option<usize>)
        ensures
            match r {
                Some(i) => i < self.entries().len() && answers(self.entries()[i as int], url@, cap@, roles@),
                None => !answered(self.entries(), url@, cap@, roles@),
            },
    {
        let mut i: usize = 0;
        while i < self.entries.len()
            invariant
                i <= self.entries@.len(),
                forall|j: int|
                    0 <= j < i ==> !answers(#[trigger] self.entries()[j], url@, cap@, roles@),
            decreases self.entries@.len() - i,
        {
            assert(self.entries()[i as int] == self.entries@[i as int]@);
            let expect: Vec<String> = key(url, &self.entries[i].headers.vary, cap, roles);
            if same_key(&self.entries[i].key, &expect) {
                return Some(i);
            }
            i = i + 1;
        }
        None
    }

    fn put(&mut self, e: CacheEntry)
        ensures
            final(self).entries() == with_entry(old(self).entries(), e@),
            final(self).hits == old(self).hits,
            final(self).misses == old(self).misses,
    {
        let ghost all: Seq<EntryView> = self.entries();
        let mut i: usize = 0;
        assert(all.skip(0) =~= all);
        assert(all.take(0) + with_entry(all, e@) =~= with_entry(all, e@));
        while i < self.entries.len()
            invariant
                i <= self.entries@.len(),
                *self == *old(self),
                all == self.entries(),
                with_entry(all, e@) == all.take(i as int) + with_entry(all.skip(i as int), e@),
            decreases self.entries@.len() - i,
        {
            let ghost rest: Seq<EntryView> = all.skip(i as int);
            proof {
                assert(rest[0] == self.entries@[i as int]@);
                assert(rest.drop_first() =~= all.skip(i + 1));
            }
            if same_key(&self.entries[i].key, &e.key) {
                let ghost new: EntryView = e@;
                self.entries[i] = e;
                proof {
                    assert(self.entries() =~= all.update(i as int, new));
                    assert(all.update(i as int, new) =~= all.take(i as int) + (seq![new] + all.skip(i + 1)));
                }
                return;
            }
            proof {
                let tail = with_entry(all.skip(i + 1), e@);
                assert(all.take(i as int) + (seq![rest[0]] + tail) =~= all.take(i + 1) + tail);
            }
            i = i + 1;
        }
        let ghost new: EntryView = e@;
        self.entries.push(e);
        proof {
            assert(all.skip(all.len() as int) =~= Seq::empty());
            assert(all.take(all.len() as int) =~= all);
            assert(self.entries() =~= all + seq![new]);
        }
    }

    /// Answers a request: from the cache where a stored response answers it, and
    /// else from the origin; the origin's response is stored unless its headers
    /// forbid it.
    pub fn fetch<F: FnOnce() -> (ResponseHeaders, String)>(
        &mut self,
        url: &str,
        cap: &str,
        roles: &str,
        produce: F,
    ) -> (body: String)
        requires
            old(self).hits < usize::MAX,
            old(self).misses < usize::MAX,
            produce.requires(()),
        ensures
            answered(old(self).entries(), url@, cap@, roles@) ==> {
                &&& final(self).entries() == old(self).entries()
                &&& final(self).hits == old(self).hits + 1
                &&& final(self).misses == old(self).misses
                &&& exists|i: int|
                    {
                        &&& 0 <= i < old(self).entries().len()
                        &&& answers(#[trigger] old(self).entries()[i], url@, cap@, roles@)
                        &&& body@ == old(self).entries()[i].body
                    }
            },
            !answered(old(self).entries(), url@, cap@, roles@) ==> {
                &&& final(self).hits == old(self).hits
                &&& final(self).misses == old(self).misses + 1
                &&& exists|r: (ResponseHeaders, String)|
                    {
                        &&& #[trigger] produce.ensures((), r)
                        &&& body@ == r.1@
                        &&& final(self).entries() == (if no_store(r.0@) {
                            old(self).entries()
                        } else {
                            with_entry(
                                old(self).entries(),
                                EntryView {
                                    key: cache_key(url@, r.0@.vary, cap@, roles@),
                                    headers: r.0@,
                                    body: r.1@,
                                },
                            )
                        })
                    }
            },
    {
        match self.find(url, cap, roles) {
            Some(i) => {
                assert(self.entries()[i as int] == self.entries@[i as int]@);
                self.hits = self.hits + 1;
                self.entries[i].body.clone()
            },
            None => {
                self.misses = self.misses + 1;
                let (headers, body): (ResponseHeaders, String) = produce();
                assert(produce.ensures((), (headers, body)));
                assert(self.entries() == old(self).entries());
                if !headers.is_no_store() {
                    let k: Vec<String> = key(url, &headers.vary, cap, roles);
                    let copy: String = body.clone();
                    self.put(CacheEntry { key: k, headers, body: copy });
                }
                body
            },
        }
    }
}

proof fn lemma_key_shape(url: Seq<char>, vary: Seq<Seq<char>>, cap: Seq<char>, roles: Seq<char>)
    ensures
        ({
            let k = cache_key(url, vary, cap, roles);
            &&& k.len() == 1 + 2 * vary.len()
            &&& k[0] == url
            &&& forall|i: int|
                0 <= i < vary.len() ==> k[1 + 2 * i] == #[trigger] vary[i] && k[2 + 2 * i] == header_value(
                    vary[i],
                    cap,
                    roles,
                )
        }),
    decreases vary.len(),
{
    if vary.len() > 0 {
        let front = vary.drop_last();
        lemma_key_shape(url, front, cap, roles);
        let k = cache_key(url, vary, cap, roles);
        assert forall|i: int| 0 <= i < vary.len() implies k[1 + 2 * i] == #[trigger] vary[i] && k[2 + 2 * i]
            == header_value(vary[i], cap, roles) by {
            if i < front.len() {
                assert(front[i] == vary[i]);
            }
        }
    }
}

/// A key says what it is the key of: two requests share one exactly where the URL, the
/// headers that are varied on, and both requests' values of them are the same.
pub proof fn law_key_determines_request(
    url1: Seq<char>,
    vary1: Seq<Seq<char>>,
    cap1: Seq<char>,
    roles1: Seq<char>,
    url2: Seq<char>,
    vary2: Seq<Seq<char>>,
    cap2: Seq<char>,
    roles2: Seq<char>,
)
    ensures
        cache_key(url1, vary1, cap1, roles1) == cache_key(url2, vary2, cap2, roles2) <==> {
            &&& url1 == url2
            &&& vary1 == vary2
            &&& same_values(vary1, cap1, roles1, cap2, roles2)
        },
{
    let (a, b) = (cache_key(url1, vary1, cap1, roles1), cache_key(url2, vary2, cap2, roles2));
    lemma_key_shape(url1, vary1, cap1, roles1);
    lemma_key_shape(url2, vary2, cap2, roles2);
    if a == b {
        assert(vary1.len() == vary2.len());
        assert forall|i: int| 0 <= i < vary1.len() implies #[trigger] vary1[i] == vary2[i] && header_value(
            vary1[i],
            cap1,
            roles1,
        ) == header_value(vary1[i], cap2, roles2) by {
            assert(a[1 + 2 * i] == vary1[i]);
            assert(b[1 + 2 * i] == vary2[i]);
            assert(a[2 + 2 * i] == b[2 + 2 * i]);
        }
        assert(vary1 =~= vary2);
    }
    if url1 == url2 && vary1 == vary2 && same_values(vary1, cap1, roles1, cap2, roles2) {
        assert forall|j: int| 0 <= j < a.len() implies a[j] == b[j] by {
            if j > 0 {
                let i = (j - 1) / 2;
                assert(0 <= i < vary1.len());
                assert(vary1[i] == vary2[i]);
                assert(j == 1 + 2 * i || j == 2 + 2 * i);
            }
        }
        assert(a =~= b);
    }
}

/// A response never crosses a varying header: what was stored for one request answers
/// another exactly where the URL and the value of every header that the response
/// varies on are the same.
pub proof fn law_hit_is_for_the_same_request(
    headers: HeadersView,
    body: Seq<char>,
    url1: Seq<char>,
    cap1: Seq<char>,
    roles1: Seq<char>,
    url2: Seq<char>,
    cap2: Seq<char>,
    roles2: Seq<char>,
)
    ensures
        answers(
            EntryView { key: cache_key(url1, headers.vary, cap1, roles1), headers, body },
            url2,
            cap2,
            roles2,
        ) <==> url1 == url2 && same_values(headers.vary, cap1, roles1, cap2, roles2),
{
    law_key_determines_request(url1, headers.vary, cap1, roles1, url2, headers.vary, cap2, roles2);
}

/// A quote is never served across roles: a response that varies on both headers
/// answers only requests for the same URL with the same capability and the same
/// roles.
pub proof fn law_no_response_crosses_roles(
    url1: Seq<char>,
    cap1: Seq<char>,
    roles1: Seq<char>,
    url2: Seq<char>,
    cap2: Seq<char>,
    roles2: Seq<char>,
)
    requires
        cache_key(url1, quote_headers().vary, cap1, roles1) == cache_key(
            url2,
            quote_headers().vary,
            cap2,
            roles2,
        ),
    ensures
        url1 == url2 && cap1 == cap2 && roles1 == roles2,
{
    let vary = quote_headers().vary;
    law_key_determines_request(url1, vary, cap1, roles1, url2, vary, cap2, roles2);
    reveal_strlit("PayTP");
    reveal_strlit("PayTP-Roles");
    assert(CAPABILITY_HEADER@.len() != ROLES_HEADER@.len());
    assert(vary[0] == CAPABILITY_HEADER@ && vary[1] == ROLES_HEADER@);
}

/// A response is kept out of every cache exactly where it says `no-store`, and one that bears
/// a quote does, and varies on both headers that a quote is built from.
pub proof fn law_a_quote_is_never_stored(h: HeadersView)
    ensures
        no_store(h) <==> h.cache_control == Some("no-store"@),
        no_store(quote_headers()),
        quote_headers().vary.contains("PayTP"@),
        quote_headers().vary.contains("PayTP-Roles"@),
{
    let vary = quote_headers().vary;
    assert(vary[0] == "PayTP"@);
    assert(vary[1] == "PayTP-Roles"@);
}

/// A request's value of a header is the capability or the roles that it asserts, by the two
/// names, and no other header counts.
pub proof fn law_two_headers_count(h: Seq<char>, cap: Seq<char>, roles: Seq<char>)
    requires
        h != "PayTP"@,
        h != "PayTP-Roles"@,
    ensures
        header_value("PayTP"@, cap, roles) == cap,
        header_value("PayTP-Roles"@, cap, roles) == roles,
        header_value(h, cap, roles).len() == 0,
{
    reveal_strlit("PayTP");
    reveal_strlit("PayTP-Roles");
    assert("PayTP"@.len() != "PayTP-Roles"@.len());
}

/// A stored response is found again, in place of an older one under its key, and stands in
/// nobody else's way.
pub proof fn law_a_stored_response_replaces_its_own(entries: Seq<EntryView>, e: EntryView, other: EntryView)
    requires
        other.key != e.key,
    ensures
        with_entry(entries, e).contains(e),
        entries.contains(other) ==> with_entry(entries, e).contains(other),
        with_entry(entries, e).contains(other) ==> entries.contains(other),
        with_entry(entries, e).len() <= entries.len() + 1,
    decreases entries.len(),
{
    let after = with_entry(entries, e);
    if entries.len() == 0 {
        assert(after[0] == e);
        if after.contains(other) {
            let i = choose|i: int| 0 <= i < after.len() && after[i] == other;
            assert(after[i] == e);
        }
    } else {
        let rest = entries.drop_first();
        if entries[0].key == e.key {
            assert(after[0] == e);
            if entries.contains(other) {
                let i = choose|i: int| 0 <= i < entries.len() && entries[i] == other;
                assert(after[i] == other);
            }
            if after.contains(other) {
                let i = choose|i: int| 0 <= i < after.len() && after[i] == other;
                assert(entries[i] == other);
            }
        } else {
            law_a_stored_response_replaces_its_own(rest, e, other);
            let tail = with_entry(rest, e);
            let k = choose|k: int| 0 <= k < tail.len() && tail[k] == e;
            assert(after[k + 1] == e);
            if entries.contains(other) {
                let i = choose|i: int| 0 <= i < entries.len() && entries[i] == other;
                if i == 0 {
                    assert(after[0] == other);
                } else {
                    assert(rest[i - 1] == other);
                    let j = choose|j: int| 0 <= j < tail.len() && tail[j] == other;
                    assert(after[j + 1] == other);
                }
            }
            if after.contains(other) {
                let i = choose|i: int| 0 <= i < after.len() && after[i] == other;
                if i == 0 {
                    assert(entries[0] == other);
                } else {
                    assert(tail[i - 1] == other);
                    let j = choose|j: int| 0 <= j < rest.len() && rest[j] == other;
                    assert(entries[j + 1] == other);
                }
            }
        }
    }
}

} // verus!
