//! The frontier of one crawl run: which URLs were discovered, which were
//! handed out for fetching, and which wait. The caller fetches; the
//! frontier decides.

use vstd::prelude::*;
use crate::address::{WebUrl, WebUrlView, text_view};
use crate::extract::{anchor_targets, find_anchor_targets};
use crate::lines::views;
use crate::media::{resolve_reference, target_of};
use crate::robots::{Rule, RuleView, allows_path, permits, rule_views};
use crate::text::{chars_of, same_text};

verus! {

/// A discovered URL and the number of links that led to it from the seed.
#[derive(Debug)]
pub struct FrontierItem {
    /// The URL.
    pub url: WebUrl,
    /// Its distance from the seed.
    pub depth: u32,
}

/// A frontier item as plain data.
pub struct ItemView {
    /// The URL.
    pub url: WebUrlView,
    /// Its distance from the seed.
    pub depth: u32,
}

impl View for FrontierItem {
    type V = ItemView;

    open spec fn view(&self) -> ItemView {
        ItemView { url: self.url@, depth: self.depth }
    }
}

/// The items as plain data.
pub open spec fn item_views(items: Seq<FrontierItem>) -> Seq<ItemView> {
    Seq::new(items.len(), |i: int| items[i]@)
}

/// The written URLs of the items.
pub open spec fn hrefs(items: Seq<ItemView>) -> Seq<Seq<char>> {
    Seq::new(items.len(), |i: int| items[i].url.href)
}

/// The document that a reference on the page at `page` leads to: nothing
/// where the reference cannot be fetched or does not resolve. Fragments
/// are left out: two references into one document lead to the same place.
pub open spec fn link_target(page: Seq<char>, reference: Seq<char>) -> Option<WebUrlView> {
    match target_of(page, reference) {
        Some(url) => Some(url.document()),
        None => None,
    }
}

/// The state of a crawl run as plain data.
pub struct FrontierView {
    /// The greatest depth at which pages are fetched.
    pub max_depth: u32,
    /// Whether only URLs on the seed's host are followed.
    pub same_domain_only: bool,
    /// The most fetches in flight at once.
    pub limit: u32,
    /// Every URL discovered so far, the seed first, in the order of
    /// discovery. This is also the order in which they are fetched.
    pub discovered: Seq<ItemView>,
    /// How many of the discovered URLs were handed out for fetching.
    pub cursor: int,
    /// Fetches handed out and not yet reported back.
    pub in_flight: u32,
    /// Whether the run was cancelled.
    pub cancelled: bool,
    /// The robots.txt rules that discovered URLs are held to.
    pub rules: Seq<RuleView>,
}

impl FrontierView {
    /// The host of the seed.
    pub open spec fn seed_host(self) -> Option<Seq<char>> {
        self.discovered[0].url.host
    }

    /// The URLs handed out for fetching so far, in order.
    pub open spec fn fetched(self) -> Seq<Seq<char>> {
        hrefs(self.discovered.take(self.cursor))
    }

    /// The items that wait to be fetched, in order.
    pub open spec fn pending(self) -> Seq<ItemView> {
        self.discovered.skip(self.cursor)
    }

    /// What holds of every state of a run.
    pub open spec fn wf(self) -> bool {
        &&& self.discovered.len() > 0
        &&& 0 <= self.cursor <= self.discovered.len()
        &&& hrefs(self.discovered).no_duplicates()
        &&& self.discovered[0].depth == 0
        &&& forall|i: int|
            1 <= i < self.discovered.len() ==> 1 <= (#[trigger] self.discovered[i]).depth
                <= self.max_depth
        &&& 1 <= self.limit
        &&& self.in_flight <= self.limit
        &&& self.in_flight <= self.cursor
        &&& self.same_domain_only ==> forall|i: int|
            0 <= i < self.discovered.len() ==> (#[trigger] self.discovered[i]).url.host
                == self.seed_host()
    }

    /// Whether a URL may be followed: its host is the seed's, unless
    /// other hosts are allowed, and the robots.txt rules permit its path.
    pub open spec fn admits(self, url: WebUrlView) -> bool {
        &&& !self.same_domain_only || url.host == self.seed_host()
        &&& permits(self.rules, url.path)
    }

    /// The discovered URLs after the references `refs` were found on the
    /// page at `page`, itself at depth `depth`: each reference that leads
    /// somewhere, may be followed and is not yet known joins the end, one
    /// level deeper than the page.
    pub open spec fn with_links(self, page: Seq<char>, refs: Seq<Seq<char>>, depth: u32) -> Seq<
        ItemView,
    >
        decreases refs.len(),
    {
        if refs.len() == 0 {
            self.discovered
        } else {
            let known = self.with_links(page, refs.drop_last(), depth);
            match link_target(page, refs.last()) {
                Some(url) => if self.admits(url) && !hrefs(known).contains(url.href) {
                    known.push(ItemView { url, depth: (depth + 1) as u32 })
                } else {
                    known
                },
                None => known,
            }
        }
    }

    /// The run is over: nothing is in flight, and nothing waits or the run
    /// was cancelled.
    pub open spec fn done(self) -> bool {
        self.in_flight == 0 && (self.cancelled || self.cursor == self.discovered.len())
    }

    /// A fetch may be handed out.
    pub open spec fn can_fetch(self) -> bool {
        !self.cancelled && self.in_flight < self.limit && self.cursor < self.discovered.len()
    }
}

/// One less, but not below zero.
pub open spec fn one_less(n: u32) -> u32 {
    if n > 0 {
        (n - 1) as u32
    } else {
        0
    }
}

/// For all crawl runs, no URL is handed out for fetching twice.
pub proof fn lemma_no_url_fetched_twice(f: FrontierView)
    requires
        f.wf(),
    ensures
        f.fetched().no_duplicates(),
{
    let all = hrefs(f.discovered);
    let got = f.fetched();
    assert forall|i: int, j: int| 0 <= i < got.len() && 0 <= j < got.len() && i != j implies got[i]
        != got[j] by {
        assert(got[i] == all[i] && got[j] == all[j]);
    }
}

/// With a greatest depth of zero only the seed is ever discovered, so
/// only the seed is ever fetched.
pub proof fn lemma_depth_zero_fetches_only_seed(f: FrontierView)
    requires
        f.wf(),
        f.max_depth == 0,
    ensures
        f.discovered.len() == 1,
        f.fetched().len() <= 1,
        forall|i: int| 0 <= i < f.fetched().len() ==> f.fetched()[i] == f.discovered[0].url.href,
{
    if f.discovered.len() > 1 {
        assert(1 <= f.discovered[1].depth <= f.max_depth);
    }
}

/// A run that is not over can go on: a fetch is in flight and will be
/// reported, or one can be handed out.
pub proof fn lemma_never_stuck(f: FrontierView)
    requires
        f.wf(),
        !f.done(),
    ensures
        f.in_flight > 0 || f.can_fetch(),
{
}

/// With only the seed's host allowed, no URL on another host is ever
/// discovered, so none is fetched.
pub proof fn lemma_stays_on_seed_host(f: FrontierView, i: int)
    requires
        f.wf(),
        f.same_domain_only,
        0 <= i < f.discovered.len(),
    ensures
        f.discovered[i].url.host == f.seed_host(),
{
}

/// What reporting a page adds keeps what was known, in order, and adds
/// only admitted URLs that were not known, each once, one level deeper.
pub proof fn lemma_with_links(f: FrontierView, page: Seq<char>, refs: Seq<Seq<char>>, depth: u32)
    requires
        f.discovered.len() > 0,
        hrefs(f.discovered).no_duplicates(),
        depth < u32::MAX,
    ensures
        f.with_links(page, refs, depth).len() >= f.discovered.len(),
        f.with_links(page, refs, depth).take(f.discovered.len() as int) == f.discovered,
        hrefs(f.with_links(page, refs, depth)).no_duplicates(),
        forall|i: int|
            f.discovered.len() <= i < f.with_links(page, refs, depth).len() ==> {
                let item = #[trigger] f.with_links(page, refs, depth)[i];
                item.depth == depth + 1 && f.admits(item.url)
            },
    decreases refs.len(),
{
    if refs.len() == 0 {
        assert(f.discovered.take(f.discovered.len() as int) =~= f.discovered);
    } else {
        let known = f.with_links(page, refs.drop_last(), depth);
        lemma_with_links(f, page, refs.drop_last(), depth);
        match link_target(page, refs.last()) {
            Some(url) => {
                if f.admits(url) && !hrefs(known).contains(url.href) {
                    let item = ItemView { url, depth: (depth + 1) as u32 };
                    let all = known.push(item);
                    assert(all.take(f.discovered.len() as int) =~= known.take(
                        f.discovered.len() as int,
                    ));
                    assert forall|i: int, j: int|
                        0 <= i < all.len() && 0 <= j < all.len() && i != j implies hrefs(all)[i]
                        != hrefs(all)[j] by {
                        if i < known.len() {
                            assert(hrefs(known)[i] == hrefs(all)[i]);
                        }
                        if j < known.len() {
                            assert(hrefs(known)[j] == hrefs(all)[j]);
                        }
                    }
                }
            },
            None => {},
        }
    }
}

/// The frontier of one crawl run. A frontier made by `new` and changed by
/// its own methods is always well-formed.
pub struct Frontier {
    max_depth: u32,
    same_domain_only: bool,
    limit: u32,
    discovered: Vec<FrontierItem>,
    cursor: usize,
    in_flight: u32,
    cancelled: bool,
    rules: Vec<Rule>,
}

impl View for Frontier {
    type V = FrontierView;

    closed spec fn view(&self) -> FrontierView {
        FrontierView {
            max_depth: self.max_depth,
            same_domain_only: self.same_domain_only,
            limit: self.limit,
            discovered: item_views(self.discovered@),
            cursor: self.cursor as int,
            in_flight: self.in_flight,
            cancelled: self.cancelled,
            rules: rule_views(self.rules@),
        }
    }
}

/// A copy of `url`.
fn copy_url(url: &WebUrl) -> (r: WebUrl)
    ensures
        r@ == url@,
{
    WebUrl {
        href: url.href.clone(),
        host: match &url.host {
            Some(h) => Some(h.clone()),
            None => None,
        },
        path: url.path.clone(),
    }
}

/// Whether two optional texts are the same.
fn same_host(a: &Option<String>, b: &Option<String>) -> (r: bool)
    ensures
        r == (text_view(*a) == text_view(*b)),
{
    match (a, b) {
        (Some(x), Some(y)) => same_text(x.as_str(), y.as_str()),
        (None, None) => true,
        _ => false,
    }
}

/// Whether some item has the written URL `href`.
fn knows(items: &Vec<FrontierItem>, href: &String) -> (r: bool)
    ensures
        r == hrefs(item_views(items@)).contains(href@),
{
    let mut i: usize = 0;
    while i < items.len()
        invariant
            i <= items.len(),
            forall|j: int| 0 <= j < i ==> hrefs(item_views(items@))[j] != href@,
        decreases items.len() - i,
    {
        if items[i].url.href == *href {
            assert(hrefs(item_views(items@))[i as int] == href@);
            return true;
        }
        i += 1;
    }
    false
}

impl Frontier {
    /// The frontier at the start of a run: the seed, without its
    /// fragment, is discovered at depth zero and waits; nothing is in
    /// flight. A limit of zero concurrent fetches counts as one.
    pub fn new(seed: WebUrl, max_depth: u32, same_domain_only: bool, max_concurrent: u32) -> (r:
        Frontier)
        ensures
            r@.wf(),
            r@ == (FrontierView {
                max_depth,
                same_domain_only,
                limit: if max_concurrent == 0 {
                    1
                } else {
                    max_concurrent
                },
                discovered: seq![ItemView { url: seed@.document(), depth: 0 }],
                cursor: 0,
                in_flight: 0,
                cancelled: false,
                rules: Seq::empty(),
            }),
    {
        let ghost first = ItemView { url: seed@.document(), depth: 0 };
        let rules: Vec<Rule> = Vec::new();
        assert(rule_views(rules@) =~= Seq::<RuleView>::empty());
        let mut discovered: Vec<FrontierItem> = Vec::new();
        discovered.push(FrontierItem { url: seed.without_fragment(), depth: 0 });
        assert(item_views(discovered@) =~= seq![first]);
        Frontier {
            max_depth,
            same_domain_only,
            limit: if max_concurrent == 0 {
                1
            } else {
                max_concurrent
            },
            discovered,
            cursor: 0,
            in_flight: 0,
            cancelled: false,
            rules,
        }
    }

    /// Holds the URLs discovered from now on to the given robots.txt
    /// rules.
    pub fn set_rules(&mut self, rules: Vec<Rule>)
        requires
            old(self)@.wf(),
        ensures
            final(self)@.wf(),
            final(self)@ == (FrontierView { rules: rule_views(rules@), ..old(self)@ }),
    {
        self.rules = rules;
    }

    /// Hands out the next URL to fetch, where one waits, the run is not
    /// cancelled and the limit of fetches in flight is not reached. A URL
    /// handed out was never handed out before.
    pub fn next_fetch(&mut self) -> (r: Option<FrontierItem>)
        requires
            old(self)@.wf(),
        ensures
            final(self)@.wf(),
            match r {
                Some(item) => {
                    &&& old(self)@.can_fetch()
                    &&& item@ == old(self)@.pending()[0]
                    &&& !old(self)@.fetched().contains(item@.url.href)
                    &&& final(self)@ == (FrontierView {
                        cursor: old(self)@.cursor + 1,
                        in_flight: (old(self)@.in_flight + 1) as u32,
                        ..old(self)@
                    })
                    &&& final(self)@.fetched() == old(self)@.fetched().push(item@.url.href)
                },
                None => !old(self)@.can_fetch() && final(self)@ == old(self)@,
            },
    {
        if self.cancelled || self.in_flight >= self.limit || self.cursor >= self.discovered.len() {
            return None;
        }
        let item = FrontierItem {
            url: copy_url(&self.discovered[self.cursor].url),
            depth: self.discovered[self.cursor].depth,
        };
        proof {
            let all = hrefs(old(self)@.discovered);
            let got = old(self)@.fetched();
            let at = old(self)@.cursor;
            assert(item@ == old(self)@.discovered[at]);
            assert(all[at] == item@.url.href);
            if got.contains(item@.url.href) {
                let k = choose|k: int| 0 <= k < got.len() && got[k] == item@.url.href;
                assert(all[k] == got[k]);
            }
            assert(hrefs(old(self)@.discovered.take(at + 1)) =~= got.push(item@.url.href));
        }
        self.cursor = self.cursor + 1;
        self.in_flight = self.in_flight + 1;
        Some(item)
    }

    /// Takes note that the page at `page`, handed out at depth `depth`, was
    /// fetched with the content `html`. Below the greatest depth its
    /// anchors are followed: each target that can be fetched, resolves,
    /// may be followed and was not discovered before is discovered now,
    /// one level deeper, and waits. At the greatest depth nothing is
    /// added.
    pub fn page_fetched(&mut self, depth: u32, page: &WebUrl, html: &str)
        requires
            old(self)@.wf(),
        ensures
            final(self)@.wf(),
            final(self)@ == (FrontierView {
                discovered: if depth < old(self)@.max_depth {
                    old(self)@.with_links(page.href@, anchor_targets(html@), depth)
                } else {
                    old(self)@.discovered
                },
                in_flight: one_less(old(self)@.in_flight),
                ..old(self)@
            }),
    {
        if self.in_flight > 0 {
            self.in_flight = self.in_flight - 1;
        }
        if depth >= self.max_depth {
            return ;
        }
        let refs = find_anchor_targets(&chars_of(html));
        let ghost start = old(self)@;
        let mut i: usize = 0;
        assert(views(refs@).take(0) =~= Seq::<Seq<char>>::empty());
        while i < refs.len()
            invariant
                i <= refs.len(),
                depth < start.max_depth,
                start.wf(),
                self.max_depth == start.max_depth,
                self.same_domain_only == start.same_domain_only,
                self.limit == start.limit,
                self.cursor == start.cursor,
                self.in_flight == one_less(start.in_flight),
                self.cancelled == start.cancelled,
                rule_views(self.rules@) == start.rules,
                self.discovered.len() > 0,
                item_views(self.discovered@) == start.with_links(
                    page.href@,
                    views(refs@).take(i as int),
                    depth,
                ),
            decreases refs.len() - i,
        {
            let ghost known = item_views(self.discovered@);
            let ghost seen = views(refs@).take(i as int);
            proof {
                let next = views(refs@).take(i + 1);
                assert(next.drop_last() =~= seen);
                assert(next.last() == refs@[i as int]@);
                lemma_with_links(start, page.href@, seen, depth);
                lemma_with_links(start, page.href@, next, depth);
                assert(known[0] == known.take(start.discovered.len() as int)[0]);
            }
            if let Some(found) = resolve_reference(page, &refs[i]) {
                let url = found.without_fragment();
                let admitted = (!self.same_domain_only || same_host(
                    &url.host,
                    &self.discovered[0].url.host,
                )) && allows_path(&self.rules, url.path.as_str());
                if admitted && !knows(&self.discovered, &url.href) {
                    let item = FrontierItem { url, depth: depth + 1 };
                    proof {
                        let all = known.push(item@);
                        assert(item_views(self.discovered@.push(item)) =~= all);
                        assert forall|k: int| 1 <= k < all.len() implies 1 <= (
                        #[trigger] all[k]).depth <= start.max_depth by {
                            if k < start.discovered.len() {
                                assert(all[k] == all.take(start.discovered.len() as int)[k]);
                            }
                        }
                        assert(all[0] == known[0]);
                    }
                    self.discovered.push(item);
                }
            }
            i += 1;
        }
        proof {
            assert(views(refs@).take(refs.len() as int) =~= views(refs@));
            let all = start.with_links(page.href@, views(refs@), depth);
            let n = start.discovered.len() as int;
            lemma_with_links(start, page.href@, views(refs@), depth);
            assert(all[0] == all.take(n)[0]);
            assert forall|k: int| 1 <= k < all.len() implies 1 <= (#[trigger] all[k]).depth
                <= start.max_depth by {
                if k < n {
                    assert(all[k] == all.take(n)[k]);
                }
            }
            if start.same_domain_only {
                assert forall|k: int| 0 <= k < all.len() implies (#[trigger] all[k]).url.host
                    == all[0].url.host by {
                    if k < n {
                        assert(all[k] == all.take(n)[k]);
                    } else {
                        assert(start.admits(all[k].url));
                    }
                }
            }
        }
    }

    /// Takes note that a fetch failed: the page and what it links to are
    /// lost to this run.
    pub fn fetch_failed(&mut self)
        requires
            old(self)@.wf(),
        ensures
            final(self)@.wf(),
            final(self)@ == (FrontierView {
                in_flight: one_less(old(self)@.in_flight),
                ..old(self)@
            }),
    {
        if self.in_flight > 0 {
            self.in_flight = self.in_flight - 1;
        }
    }

    /// Cancels the run: no further fetch is handed out.
    pub fn cancel(&mut self)
        requires
            old(self)@.wf(),
        ensures
            final(self)@.wf(),
            final(self)@ == (FrontierView { cancelled: true, ..old(self)@ }),
    {
        self.cancelled = true;
    }

    /// Whether the run is over.
    pub fn is_done(&self) -> (r: bool)
        requires
            self@.wf(),
        ensures
            r == self@.done(),
    {
        self.in_flight == 0 && (self.cancelled || self.cursor >= self.discovered.len())
    }

    /// Every URL discovered so far, the seed first.
    pub fn discovered(&self) -> (r: &Vec<FrontierItem>)
        ensures
            item_views(r@) == self@.discovered,
    {
        &self.discovered
    }

    /// How many URLs were handed out for fetching.
    pub fn fetched_count(&self) -> (r: usize)
        ensures
            r == self@.cursor,
    {
        self.cursor
    }

    /// How many fetches are in flight.
    pub fn in_flight(&self) -> (r: u32)
        ensures
            r == self@.in_flight,
    {
        self.in_flight
    }
}

} // verus!
