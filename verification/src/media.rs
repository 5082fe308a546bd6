//! Which media of a page are to be downloaded, and under which names.

use vstd::prelude::*;
use crate::address::{WebUrl, WebUrlView, resolved, url_view};
use crate::fetch::{check_status, is_success};
use crate::edit::starts_with;
use crate::extract::{fetchable, find_image_sources, image_sources, is_fetchable};
use crate::filename::{file_name_of, path_segments, url_to_filename};
use crate::layout::{html, with_extension};
use crate::lines::views;
use crate::text::{
    CharClass, append_chars, chars_of, last_in, lemma_last_in, matches_here, rfind_class,
    same_chars, slice_of, string_of,
};

verus! {

/// The extension given to media whose URL has no path segments.
pub open spec fn default_extension() -> Seq<char> {
    seq!['j', 'p', 'g']
}

/// The text after the last `sep` in `s`; all of `s` where it holds none.
pub open spec fn after_last(s: Seq<char>, sep: char) -> Seq<char> {
    match last_in(s, CharClass::Just(sep), s.len() as int) {
        Some(k) => s.subrange(k + 1, s.len() as int),
        None => s,
    }
}

/// The extension of a media file, from its URL's path: what follows the
/// last dot of the last segment, or that whole segment where it has no
/// dot; `jpg` where the path has no segments.
pub open spec fn media_extension(path: Seq<char>) -> Seq<char> {
    if path_segments(path) is Some {
        after_last(after_last(path, '/'), '.')
    } else {
        default_extension()
    }
}

/// The file name under which the media file at a URL is stored.
pub open spec fn media_name(url: WebUrlView) -> Seq<char> {
    with_extension(file_name_of(url.host, url.path), media_extension(url.path))
}

/// The file name under which the page at a URL is stored.
pub open spec fn page_name(url: WebUrlView) -> Seq<char> {
    with_extension(file_name_of(url.host, url.path), html())
}

/// One media file to download.
#[derive(Debug)]
pub struct MediaJob {
    /// Where the file is fetched from.
    pub url: WebUrl,
    /// The name under which it is stored.
    pub file_name: String,
}

/// A media job as plain data.
pub struct MediaJobView {
    /// Where the file is fetched from.
    pub url: WebUrlView,
    /// The name under which it is stored.
    pub file_name: Seq<char>,
}

impl View for MediaJob {
    type V = MediaJobView;

    open spec fn view(&self) -> MediaJobView {
        MediaJobView { url: self.url@, file_name: self.file_name@ }
    }
}

/// The jobs as plain data.
pub open spec fn job_views(jobs: Seq<MediaJob>) -> Seq<MediaJobView> {
    Seq::new(jobs.len(), |i: int| jobs[i]@)
}

/// The texts that a vector of strings holds.
pub open spec fn name_views(names: Seq<String>) -> Seq<Seq<char>> {
    Seq::new(names.len(), |i: int| names[i]@)
}

/// What a reference on the page at `page` leads to: nothing where it
/// cannot be fetched or does not resolve.
pub open spec fn target_of(page: Seq<char>, reference: Seq<char>) -> Option<WebUrlView> {
    if is_fetchable(reference) {
        resolved(page, reference)
    } else {
        None
    }
}

/// The downloads to make for the references `refs` found on the page at
/// `page`, where files named as in `taken` exist already: one for each
/// reference that leads somewhere and whose file name is neither taken
/// nor that of an earlier download.
pub open spec fn planned(page: Seq<char>, refs: Seq<Seq<char>>, taken: Seq<Seq<char>>) -> Seq<
    MediaJobView,
>
    decreases refs.len(),
{
    if refs.len() == 0 {
        Seq::empty()
    } else {
        match target_of(page, refs[0]) {
            None => planned(page, refs.drop_first(), taken),
            Some(url) => {
                if taken.contains(media_name(url)) {
                    planned(page, refs.drop_first(), taken)
                } else {
                    seq![MediaJobView { url, file_name: media_name(url) }] + planned(
                        page,
                        refs.drop_first(),
                        taken.push(media_name(url)),
                    )
                }
            },
        }
    }
}

/// Every reference that leads somewhere has its file name in `taken`.
pub open spec fn covered(page: Seq<char>, refs: Seq<Seq<char>>, taken: Seq<Seq<char>>) -> bool {
    forall|i: int|
        0 <= i < refs.len() && (#[trigger] target_of(page, refs[i])) is Some ==> taken.contains(
            media_name(target_of(page, refs[i])->0),
        )
}

/// No planned download has a name that was taken, and no two have the
/// same name.
pub proof fn lemma_planned_fresh(page: Seq<char>, refs: Seq<Seq<char>>, taken: Seq<Seq<char>>)
    ensures
        forall|i: int|
            0 <= i < planned(page, refs, taken).len() ==> !taken.contains(
                #[trigger] planned(page, refs, taken)[i].file_name,
            ),
        forall|i: int, j: int|
            0 <= i < j < planned(page, refs, taken).len() ==> (#[trigger] planned(
                page,
                refs,
                taken,
            )[i]).file_name != (#[trigger] planned(page, refs, taken)[j]).file_name,
    decreases refs.len(),
{
    if refs.len() > 0 {
        let rest = refs.drop_first();
        match target_of(page, refs[0]) {
            None => {
                lemma_planned_fresh(page, rest, taken);
            },
            Some(url) => {
                let name = media_name(url);
                if taken.contains(name) {
                    lemma_planned_fresh(page, rest, taken);
                } else {
                    let more = taken.push(name);
                    lemma_planned_fresh(page, rest, more);
                    let tail = planned(page, rest, more);
                    let all = planned(page, refs, taken);
                    assert(more[taken.len() as int] == name);
                    assert forall|i: int| 0 <= i < all.len() implies !taken.contains(
                        #[trigger] all[i].file_name,
                    ) by {
                        if i > 0 {
                            assert(all[i] == tail[i - 1]);
                            if taken.contains(all[i].file_name) {
                                let k = choose|k: int|
                                    0 <= k < taken.len() && taken[k] == all[i].file_name;
                                assert(more[k] == all[i].file_name);
                            }
                        }
                    }
                    assert forall|i: int, j: int| 0 <= i < j < all.len() implies (
                    #[trigger] all[i]).file_name != (#[trigger] all[j]).file_name by {
                        assert(all[j] == tail[j - 1]);
                        if i > 0 {
                            assert(all[i] == tail[i - 1]);
                        }
                    }
                }
            },
        }
    }
}

/// Where every reference that leads somewhere has its file on disk,
/// nothing is downloaded.
pub proof fn lemma_covered_plans_nothing(
    page: Seq<char>,
    refs: Seq<Seq<char>>,
    taken: Seq<Seq<char>>,
)
    requires
        covered(page, refs, taken),
    ensures
        planned(page, refs, taken).len() == 0,
    decreases refs.len(),
{
    if refs.len() > 0 {
        let rest = refs.drop_first();
        assert(target_of(page, refs[0]) is Some ==> taken.contains(
            media_name(target_of(page, refs[0])->0),
        ));
        assert forall|i: int|
            0 <= i < rest.len() && (#[trigger] target_of(page, rest[i])) is Some implies taken.contains(
            media_name(target_of(page, rest[i])->0),
        ) by {
            assert(rest[i] == refs[i + 1]);
        }
        lemma_covered_plans_nothing(page, rest, taken);
    }
}

/// Once the planned downloads are stored beside what was there, every
/// reference is covered.
pub proof fn lemma_plan_covers(
    page: Seq<char>,
    refs: Seq<Seq<char>>,
    taken: Seq<Seq<char>>,
    later: Seq<Seq<char>>,
)
    requires
        forall|n: Seq<char>| taken.contains(n) ==> later.contains(n),
        forall|i: int|
            0 <= i < planned(page, refs, taken).len() ==> later.contains(
                #[trigger] planned(page, refs, taken)[i].file_name,
            ),
    ensures
        covered(page, refs, later),
    decreases refs.len(),
{
    if refs.len() > 0 {
        let rest = refs.drop_first();
        let all = planned(page, refs, taken);
        match target_of(page, refs[0]) {
            None => {
                lemma_plan_covers(page, rest, taken, later);
            },
            Some(url) => {
                let name = media_name(url);
                if taken.contains(name) {
                    lemma_plan_covers(page, rest, taken, later);
                } else {
                    let more = taken.push(name);
                    let tail = planned(page, rest, more);
                    assert(all[0].file_name == name);
                    assert forall|n: Seq<char>| more.contains(n) implies later.contains(n) by {
                        let k = choose|k: int| 0 <= k < more.len() && more[k] == n;
                        if k < taken.len() {
                            assert(taken[k] == n);
                        }
                    }
                    assert forall|i: int| 0 <= i < tail.len() implies later.contains(
                        #[trigger] tail[i].file_name,
                    ) by {
                        assert(all[i + 1] == tail[i]);
                    }
                    lemma_plan_covers(page, rest, more, later);
                }
            },
        }
        assert forall|i: int|
            0 <= i < refs.len() && (#[trigger] target_of(page, refs[i])) is Some implies later.contains(
            media_name(target_of(page, refs[i])->0),
        ) by {
            if i > 0 {
                assert(refs[i] == rest[i - 1]);
            }
        }
    }
}

/// A second run over an unchanged page, with the files of the first run
/// stored, downloads nothing.
pub proof fn lemma_second_run_downloads_nothing(
    page: Seq<char>,
    refs: Seq<Seq<char>>,
    on_disk: Seq<Seq<char>>,
    later: Seq<Seq<char>>,
)
    requires
        forall|n: Seq<char>| on_disk.contains(n) ==> later.contains(n),
        forall|i: int|
            0 <= i < planned(page, refs, on_disk).len() ==> later.contains(
                #[trigger] planned(page, refs, on_disk)[i].file_name,
            ),
    ensures
        planned(page, refs, later).len() == 0,
{
    lemma_plan_covers(page, refs, on_disk, later);
    lemma_covered_plans_nothing(page, refs, later);
}

/// The text after the last `sep` in `s`.
fn tail_after(s: &Vec<char>, sep: char) -> (out: Vec<char>)
    ensures
        out@ == after_last(s@, sep),
{
    proof {
        lemma_last_in(s@, CharClass::Just(sep), s.len() as int);
    }
    match rfind_class(s, CharClass::Just(sep), s.len()) {
        Some(k) => slice_of(s, k + 1, s.len()),
        None => s.clone(),
    }
}

/// The extension of a media file, from its URL's path.
pub fn extension_for(path: &Vec<char>) -> (out: Vec<char>)
    ensures
        out@ == media_extension(path@),
{
    if path.len() > 0 && path[0] == '/' {
        let last = tail_after(path, '/');
        tail_after(&last, '.')
    } else {
        let jpg: Vec<char> = vec!['j', 'p', 'g'];
        assert(jpg@ =~= default_extension());
        jpg
    }
}

/// The file name under which the media file at `url` is stored.
pub fn media_file_name(url: &WebUrl) -> (out: String)
    ensures
        out@ == media_name(url@),
{
    let mut name = chars_of(url_to_filename(url).as_str());
    let ext = extension_for(&chars_of(url.path.as_str()));
    name.push('.');
    append_chars(&mut name, &ext);
    string_of(&name)
}

/// The file name under which the page at `url` is stored.
pub fn page_file_name(url: &WebUrl) -> (out: String)
    ensures
        out@ == page_name(url@),
{
    let mut name = chars_of(url_to_filename(url).as_str());
    let ext: Vec<char> = vec!['h', 't', 'm', 'l'];
    assert(ext@ =~= html());
    name.push('.');
    append_chars(&mut name, &ext);
    string_of(&name)
}

/// Whether `names` holds `name`.
fn holds_name(names: &Vec<Vec<char>>, name: &Vec<char>) -> (b: bool)
    ensures
        b == views(names@).contains(name@),
{
    let mut i: usize = 0;
    while i < names.len()
        invariant
            i <= names.len(),
            forall|j: int| 0 <= j < i ==> views(names@)[j] != name@,
        decreases names.len() - i,
    {
        if same_chars(&names[i], name) {
            assert(views(names@)[i as int] == name@);
            return true;
        }
        i += 1;
    }
    false
}

/// What a reference on `page` leads to.
pub fn resolve_reference(page: &WebUrl, reference: &Vec<char>) -> (r: Option<WebUrl>)
    ensures
        url_view(r) == target_of(page.href@, reference@),
{
    if fetchable(reference) {
        page.resolve(string_of(reference).as_str())
    } else {
        None
    }
}

/// The downloads to make for the page at `page` with the content `html`,
/// where the media directory holds files named as in `existing`.
pub fn plan_media(page: &WebUrl, html: &str, existing: &Vec<String>) -> (out: Vec<MediaJob>)
    ensures
        job_views(out@) == planned(page.href@, image_sources(html@), name_views(existing@)),
{
    let refs = find_image_sources(&chars_of(html));
    let mut taken: Vec<Vec<char>> = Vec::new();
    let mut k: usize = 0;
    while k < existing.len()
        invariant
            k <= existing.len(),
            views(taken@) == name_views(existing@).take(k as int),
        decreases existing.len() - k,
    {
        let ghost held = views(taken@);
        let name = chars_of(existing[k].as_str());
        taken.push(name);
        assert(views(taken@) =~= held.push(name@));
        assert(name_views(existing@).take(k + 1) =~= name_views(existing@).take(k as int).push(
            existing@[k as int]@,
        ));
        k += 1;
    }
    assert(name_views(existing@).take(existing.len() as int) =~= name_views(existing@));
    let mut out: Vec<MediaJob> = Vec::new();
    let mut i: usize = 0;
    assert(views(refs@).skip(0) =~= views(refs@));
    assert(job_views(out@) =~= Seq::<MediaJobView>::empty());
    while i < refs.len()
        invariant
            i <= refs.len(),
            job_views(out@) + planned(page.href@, views(refs@).skip(i as int), views(taken@))
                == planned(page.href@, views(refs@), name_views(existing@)),
        decreases refs.len() - i,
    {
        let ghost before = job_views(out@);
        let ghost rest = views(refs@).skip(i as int);
        let ghost held = views(taken@);
        proof {
            assert(rest[0] == refs@[i as int]@);
            assert(rest.drop_first() =~= views(refs@).skip(i + 1));
        }
        if let Some(url) = resolve_reference(page, &refs[i]) {
            let name = media_file_name(&url);
            let name_chars = chars_of(name.as_str());
            if !holds_name(&taken, &name_chars) {
                taken.push(name_chars);
                let job = MediaJob { url, file_name: name };
                proof {
                    let tail = planned(page.href@, rest.drop_first(), held.push(name@));
                    assert(views(taken@) =~= held.push(name@));
                    assert(before.push(job@) + tail =~= before + (seq![job@] + tail));
                }
                out.push(job);
                assert(job_views(out@) =~= before.push(job@));
            }
        }
        i += 1;
    }
    proof {
        assert(views(refs@).skip(refs.len() as int) =~= Seq::<Seq<char>>::empty());
        assert(job_views(out@) + Seq::<MediaJobView>::empty() =~= job_views(out@));
    }
    out
}

/// Whether a response is stored as media: the status is a success and the
/// content type begins with `image/`.
pub fn accept_media(status: u16, content_type: &str) -> (b: bool)
    ensures
        b == (is_success(status) && starts_with(
            content_type@,
            seq!['i', 'm', 'a', 'g', 'e', '/'],
        )),
{
    let prefix: Vec<char> = vec!['i', 'm', 'a', 'g', 'e', '/'];
    assert(prefix@ =~= seq!['i', 'm', 'a', 'g', 'e', '/']);
    check_status(status).is_ok() && matches_here(
        &chars_of(content_type),
        &prefix,
        0,
    )
}

} // verus!
