//! Media classification and wallpaper picking.
use vstd::prelude::*;
use rand::seq::SliceRandom;
use crate::text::{
    fold_text, folded, insert_sorted_unique, lemma_text_lt_irreflexive, strictly_ascending, text_lt,
    contains_name, trim_text, trimmed_of, views,
};

verus! {

broadcast use vstd::seq_lib::group_filter_ensures;

/// The code point of `.`.
pub const DOT: u32 = 46;

/// The code point of `/`.
pub const SLASH: u32 = 47;

/// What a supported media file holds.
#[derive(Clone, Copy, Debug, PartialEq, Eq, Structural)]
pub enum MediaKind {
    Image,
    Video,
}

/// `d` is the dot that starts the extension of the last path segment of `f`.
pub open spec fn is_extension_dot(f: Seq<u32>, d: int) -> bool {
    &&& 0 < d < f.len()
    &&& f[d] == DOT
    &&& f[d - 1] != SLASH
    &&& forall|k: int| d < k < f.len() ==> #[trigger] f[k] != DOT && f[k] != SLASH
}

/// Where the file name of the folded path `f` ends: trailing separators and trailing `.`
/// components are not part of it.
pub open spec fn name_end(f: Seq<u32>) -> int
    decreases f.len(),
{
    if f.len() > 0 && f.last() == SLASH {
        name_end(f.drop_last())
    } else if f.len() >= 2 && f.last() == DOT && f[f.len() - 2] == SLASH {
        name_end(f.drop_last())
    } else {
        f.len() as int
    }
}

/// A path, ASCII-folded to lower case, up to the end of its file name.
pub open spec fn named_part(p: Seq<char>) -> Seq<u32> {
    let f = folded(p);
    f.subrange(0, name_end(f))
}

/// The extension of a path, ASCII-folded to lower case: the text after the last dot of the
/// file name, where that dot does not open the file name.
pub open spec fn folded_extension(p: Seq<char>) -> Option<Seq<u32>> {
    let f = named_part(p);
    if exists|d: int| is_extension_dot(f, d) {
        let d = choose|d: int| is_extension_dot(f, d);
        Some(f.subrange(d + 1, f.len() as int))
    } else {
        None
    }
}

/// The code points of a word.
pub open spec fn word(s: Seq<char>) -> Seq<u32> {
    s.map_values(|c: char| c as u32)
}

pub open spec fn is_image_extension(e: Seq<u32>) -> bool {
    ||| e == word(seq!['j', 'p', 'g'])
    ||| e == word(seq!['j', 'p', 'e', 'g'])
    ||| e == word(seq!['p', 'n', 'g'])
    ||| e == word(seq!['w', 'e', 'b', 'p'])
}

pub open spec fn is_video_extension(e: Seq<u32>) -> bool {
    ||| e == word(seq!['m', 'p', '4'])
    ||| e == word(seq!['m', 'k', 'v'])
    ||| e == word(seq!['w', 'e', 'b', 'm'])
    ||| e == word(seq!['m', 'o', 'v'])
    ||| e == word(seq!['a', 'v', 'i'])
}

/// The kind of media a path names, judged by its extension regardless of ASCII case.
pub open spec fn media_kind_of(p: Seq<char>) -> Option<MediaKind> {
    match folded_extension(p) {
        Some(e) => if is_image_extension(e) {
            Some(MediaKind::Image)
        } else if is_video_extension(e) {
            Some(MediaKind::Video)
        } else {
            None
        },
        None => None,
    }
}

fn word_at(f: &Vec<u32>, from: usize, w: &Vec<u32>) -> (r: bool)
    requires
        from <= f.len(),
    ensures
        r == (f@.subrange(from as int, f@.len() as int) == w@),
{
    if f.len() - from != w.len() {
        return false;
    }
    let mut k: usize = 0;
    while k < w.len()
        invariant
            from <= f.len(),
            f.len() - from == w.len(),
            0 <= k <= w.len(),
            forall|j: int| 0 <= j < k ==> f@[from + j] == w@[j],
        decreases w.len() - k,
    {
        if f[from + k] != w[k] {
            proof {
                assert(f@.subrange(from as int, f@.len() as int)[k as int] != w@[k as int]);
            }
            return false;
        }
        k = k + 1;
    }
    proof {
        assert(f@.subrange(from as int, f@.len() as int) == w@);
    }
    true
}

/// The kind of media that `path` names, or `None` for an unsupported file.
pub fn media_kind(path: &str) -> (r: Option<MediaKind>)
    ensures
        r == media_kind_of(path@),
{
    let mut f = fold_text(path);
    let ghost whole = folded(path@);
    let mut e: usize = f.len();
    proof {
        assert(whole.subrange(0, e as int) == whole);
    }
    while e > 0 && (f[e - 1] == SLASH || (e >= 2 && f[e - 1] == DOT && f[e - 2] == SLASH))
        invariant
            f@ == whole,
            0 <= e <= f.len(),
            name_end(whole) == name_end(whole.subrange(0, e as int)),
        decreases e,
    {
        proof {
            assert(whole.subrange(0, e as int).drop_last() == whole.subrange(0, e - 1));
        }
        e = e - 1;
    }
    proof {
        assert(name_end(whole.subrange(0, e as int)) == e);
    }
    f.truncate(e);
    let ghost fs = named_part(path@);
    proof {
        assert(f@ == fs);
    }
    let mut i: usize = f.len();
    while i > 0 && f[i - 1] != DOT && f[i - 1] != SLASH
        invariant
            f@ == fs,
            0 <= i <= f.len(),
            forall|k: int| i <= k < f.len() ==> #[trigger] fs[k] != DOT && fs[k] != SLASH,
        decreases i,
    {
        i = i - 1;
    }
    if i < 2 || f[i - 1] != DOT || f[i - 2] == SLASH {
        proof {
            assert forall|d: int| !is_extension_dot(fs, d) by {
                if is_extension_dot(fs, d) {
                    if d < i - 1 {
                        assert(fs[i - 1] == DOT || fs[i - 1] == SLASH);
                    }
                }
            }
        }
        return None;
    }
    let ghost d = i - 1;
    proof {
        assert(is_extension_dot(fs, d));
        assert forall|e: int| is_extension_dot(fs, e) implies e == d by {
            if e < d {
                assert(fs[d] == DOT);
            }
        }
    }
    proof {
        assert(word(seq!['j', 'p', 'g']) =~= seq![106u32, 112, 103]);
        assert(word(seq!['j', 'p', 'e', 'g']) =~= seq![106u32, 112, 101, 103]);
        assert(word(seq!['p', 'n', 'g']) =~= seq![112u32, 110, 103]);
        assert(word(seq!['w', 'e', 'b', 'p']) =~= seq![119u32, 101, 98, 112]);
        assert(word(seq!['m', 'p', '4']) =~= seq![109u32, 112, 52]);
        assert(word(seq!['m', 'k', 'v']) =~= seq![109u32, 107, 118]);
        assert(word(seq!['w', 'e', 'b', 'm']) =~= seq![119u32, 101, 98, 109]);
        assert(word(seq!['m', 'o', 'v']) =~= seq![109u32, 111, 118]);
        assert(word(seq!['a', 'v', 'i']) =~= seq![97u32, 118, 105]);
    }
    let image = word_at(&f, i, &vec![106, 112, 103]) || word_at(&f, i, &vec![106, 112, 101, 103])
        || word_at(&f, i, &vec![112, 110, 103]) || word_at(&f, i, &vec![119, 101, 98, 112]);
    if image {
        return Some(MediaKind::Image);
    }
    let video = word_at(&f, i, &vec![109, 112, 52]) || word_at(&f, i, &vec![109, 107, 118])
        || word_at(&f, i, &vec![119, 101, 98, 109]) || word_at(&f, i, &vec![109, 111, 118])
        || word_at(&f, i, &vec![97, 118, 105]);
    if video {
        Some(MediaKind::Video)
    } else {
        None
    }
}

/// Whether `path` names a supported image or video file.
pub fn is_supported_media(path: &str) -> (r: bool)
    ensures
        r == media_kind_of(path@).is_some(),
{
    media_kind(path).is_some()
}

/// Whether `path` names a supported video file.
pub fn is_video_file(path: &str) -> (r: bool)
    ensures
        r == (media_kind_of(path@) == Some(MediaKind::Video)),
{
    match media_kind(path) {
        Some(MediaKind::Video) => true,
        _ => false,
    }
}

/// Why no wallpaper could be picked.
#[derive(Clone, Copy, Debug, PartialEq, Eq, Structural)]
pub enum PickError {
    /// The directory holds no supported media file.
    NoWallpapers,
}

/// `listing` holds the supported files among `files`, each once, in byte order.
pub open spec fn is_listing_of(files: Seq<String>, listing: Seq<Seq<char>>) -> bool {
    &&& strictly_ascending(listing)
    &&& forall|t: Seq<char>|
        listing.contains(t) <==> (views(files).contains(t) && media_kind_of(t).is_some())
}

/// The supported media among the files of a directory, sorted by path; duplicates collapse.
pub fn list_wallpapers(files: &Vec<String>) -> (r: Result<Vec<String>, PickError>)
    ensures
        match r {
            Ok(v) => v@.len() > 0 && is_listing_of(files@, views(v@)),
            Err(e) => e == PickError::NoWallpapers && forall|i: int|
                0 <= i < files@.len() ==> media_kind_of(#[trigger] files@[i]@).is_none(),
        },
{
    let mut images: Vec<String> = Vec::new();
    let mut i: usize = 0;
    while i < files.len()
        invariant
            0 <= i <= files.len(),
            strictly_ascending(views(images@)),
            forall|t: Seq<char>|
                views(images@).contains(t) <==> (views(files@.subrange(0, i as int)).contains(t)
                    && media_kind_of(t).is_some()),
        decreases files.len() - i,
    {
        let ghost before = views(images@);
        let ghost prefix = views(files@.subrange(0, i as int));
        let ghost next = views(files@.subrange(0, i + 1));
        proof {
            assert(next == prefix.push(files@[i as int]@));
        }
        if is_supported_media(files[i].as_str()) {
            insert_sorted_unique(&mut images, files[i].clone());
        }
        proof {
            assert forall|t: Seq<char>|
                views(images@).contains(t) <==> (next.contains(t) && media_kind_of(t).is_some()) by {
                if next.contains(t) && t != files@[i as int]@ {
                    let j = choose|j: int| 0 <= j < next.len() && next[j] == t;
                    assert(prefix[j] == t);
                }
                if prefix.contains(t) {
                    let j = choose|j: int| 0 <= j < prefix.len() && prefix[j] == t;
                    assert(next[j] == t);
                }
                assert(next[i as int] == files@[i as int]@);
            }
        }
        i = i + 1;
    }
    proof {
        assert(files@.subrange(0, files@.len() as int) == files@);
    }
    if images.len() == 0 {
        proof {
            assert forall|i: int| 0 <= i < files@.len() implies media_kind_of(
                #[trigger] files@[i]@,
            ).is_none() by {
                assert(views(files@)[i] == files@[i]@);
                if media_kind_of(files@[i]@).is_some() {
                    assert(views(images@).contains(files@[i]@));
                }
            }
        }
        return Err(PickError::NoWallpapers);
    }
    Ok(images)
}

/// The remembered path, as read back from the saved state.
pub open spec fn saved_last(images: Seq<Seq<char>>, saved: Option<&str>) -> Option<Seq<char>> {
    match saved {
        Some(s) => Some(remembered_text(images, s@)),
        None => None,
    }
}

/// The path that saved text stands for: the text itself when it is a candidate as written,
/// else the text with surrounding white space removed.
pub open spec fn remembered_text(images: Seq<Seq<char>>, saved: Seq<char>) -> Seq<char> {
    if images.contains(saved) {
        saved
    } else {
        trimmed_of(saved)
    }
}

/// The path that the saved text `saved` stands for among `images`.
pub fn remembered_path<'a>(images: &Vec<String>, saved: &'a str) -> (r: &'a str)
    ensures
        r@ == remembered_text(views(images@), saved@),
{
    if contains_name(images, saved) {
        saved
    } else {
        trim_text(saved)
    }
}

/// `i` is the first place where `t` occurs in `s`.
pub open spec fn first_index(s: Seq<Seq<char>>, t: Seq<char>, i: int) -> bool {
    &&& 0 <= i < s.len()
    &&& s[i] == t
    &&& forall|j: int| 0 <= j < i ==> s[j] != t
}

/// The first place where `t` occurs in `s`, if it does.
pub open spec fn first_position(s: Seq<Seq<char>>, t: Seq<char>) -> Option<int> {
    if exists|i: int| first_index(s, t, i) {
        Some(choose|i: int| first_index(s, t, i))
    } else {
        None
    }
}

/// Where round-robin picking goes next: the successor of the remembered path, else the start.
pub open spec fn next_index(images: Seq<Seq<char>>, last: Option<Seq<char>>) -> int {
    match last {
        Some(l) => match first_position(images, l) {
            Some(i) => (i + 1) % (images.len() as int),
            None => 0,
        },
        None => 0,
    }
}

pub proof fn lemma_first_position(s: Seq<Seq<char>>, t: Seq<char>, k: int)
    requires
        first_index(s, t, k),
    ensures
        first_position(s, t) == Some(k),
{
    let c = choose|c: int| first_index(s, t, c);
    assert(first_index(s, t, c));
    assert(c == k) by {
        if c < k {
            assert(s[c] == t);
        } else if c > k {
            assert(s[k] == t);
        }
    }
}

/// Picks the wallpaper after the remembered one in `images`, wrapping around.
pub fn pick_next_wallpaper(images: &Vec<String>, saved: Option<&str>) -> (r: Result<
    String,
    PickError,
>)
    ensures
        match r {
            Ok(p) => images@.len() > 0 && p@ == views(images@)[next_index(
                views(images@),
                saved_last(views(images@), saved),
            )],
            Err(e) => e == PickError::NoWallpapers && images@.len() == 0,
        },
{
    if images.len() == 0 {
        return Err(PickError::NoWallpapers);
    }
    let ghost imgs = views(images@);
    let mut index: usize = 0;
    if let Some(s) = saved {
        let last = remembered_path(images, s);
        let mut i: usize = 0;
        let mut found = false;
        while i < images.len() && !found
            invariant
                imgs == views(images@),
                last@ == remembered_text(imgs, s@),
                0 <= i <= images.len(),
                found ==> i < images.len() && first_index(imgs, last@, i as int),
                !found ==> forall|j: int| 0 <= j < i ==> imgs[j] != last@,
            decreases images.len() - i + (if found { 0int } else { 1int }),
        {
            if crate::text::compare_text(images[i].as_str(), last) == 0 {
                found = true;
            } else {
                i = i + 1;
            }
        }
        if found {
            index = if i + 1 == images.len() { 0 } else { i + 1 };
            proof {
                if i + 1 == images.len() {
                    vstd::arithmetic::div_mod::lemma_mod_self_0(images.len() as int);
                } else {
                    vstd::arithmetic::div_mod::lemma_small_mod((i + 1) as nat, images.len() as nat);
                }
                assert(index as int == (i + 1) % (images.len() as int));
                lemma_first_position(imgs, last@, i as int);
            }
        } else {
            proof {
                assert(!exists|c: int| first_index(imgs, last@, c));
            }
        }
        assert(index as int == next_index(imgs, saved_last(views(images@), saved)));
    }
    assert(index as int == next_index(imgs, saved_last(views(images@), saved)));
    assert(imgs[index as int] == images@[index as int]@);
    Ok(images[index].clone())
}

/// Relies on rand's `SliceRandom::choose` with the thread-local generator: `None` for an empty
/// slice, otherwise one of its elements.
#[verifier::external_body]
fn choose_random(items: &[String]) -> (r: Option<String>)
    ensures
        match r {
            Some(p) => exists|i: int| 0 <= i < items@.len() && items@[i] == p,
            None => items@.len() == 0,
        },
{
    items.choose(&mut rand::thread_rng()).cloned()
}

/// Whether a first random draw must be drawn again: it repeats the remembered path and there is
/// more than one candidate.
pub fn needs_redraw(images: &Vec<String>, last: &str, drawn: &str) -> (r: bool)
    ensures
        r == (images@.len() > 1 && drawn@ == last@),
{
    images.len() > 1 && crate::text::compare_text(drawn, last) == 0
}

/// The candidates other than the remembered path, in their order.
pub fn alternatives(images: &Vec<String>, last: &str) -> (r: Vec<String>)
    ensures
        views(r@) == views(images@).filter(|t: Seq<char>| t != last@),
        forall|k: int| 0 <= k < r@.len() ==> views(images@).contains(#[trigger] r@[k]@),
{
    let ghost imgs = views(images@);
    let ghost pred = |t: Seq<char>| t != last@;
    let mut r: Vec<String> = Vec::new();
    let mut i: usize = 0;
    while i < images.len()
        invariant
            imgs == views(images@),
            pred == (|t: Seq<char>| t != last@),
            0 <= i <= images.len(),
            views(r@) == imgs.subrange(0, i as int).filter(pred),
            forall|k: int| 0 <= k < r@.len() ==> imgs.contains(#[trigger] r@[k]@),
        decreases images.len() - i,
    {
        proof {
            reveal(Seq::filter);
            assert(imgs.subrange(0, i + 1).drop_last() == imgs.subrange(0, i as int));
            assert(imgs.subrange(0, i + 1).last() == images@[i as int]@);
        }
        if crate::text::compare_text(images[i].as_str(), last) != 0 {
            r.push(images[i].clone());
            proof {
                assert(views(r@) == views(r@).drop_last().push(images@[i as int]@));
                assert(imgs[i as int] == images@[i as int]@);
            }
        }
        i = i + 1;
    }
    proof {
        assert(imgs.subrange(0, images@.len() as int) == imgs);
    }
    r
}

/// The pick `p` keeps clear of the remembered path `last` whenever any other candidate exists
/// among more than one.
pub open spec fn avoids_last(images: Seq<Seq<char>>, last: Option<Seq<char>>, p: Seq<char>) -> bool {
    match last {
        Some(l) => (images.len() > 1 && exists|i: int| 0 <= i < images.len() && images[i] != l)
            ==> p != l,
        None => true,
    }
}

/// Picks a random wallpaper from `images`, drawing once more among the others when the first
/// draw repeats the remembered path.
pub fn pick_random_wallpaper(images: &Vec<String>, saved: Option<&str>) -> (r: Result<
    String,
    PickError,
>)
    ensures
        match r {
            Ok(p) => views(images@).contains(p@) && avoids_last(
                views(images@),
                saved_last(views(images@), saved),
                p@,
            ),
            Err(e) => e == PickError::NoWallpapers && images@.len() == 0,
        },
{
    let ghost imgs = views(images@);
    let mut selected = match choose_random(images.as_slice()) {
        Some(p) => p,
        None => {
            return Err(PickError::NoWallpapers);
        },
    };
    proof {
        let i = choose|i: int| 0 <= i < images@.len() && images@[i] == selected;
        assert(imgs[i] == selected@);
        assert(imgs.contains(selected@));
    }
    if let Some(s) = saved {
        let last = remembered_path(images, s);
        if needs_redraw(images, last, selected.as_str()) {
            let alts = alternatives(images, last);
            let ghost pred = |t: Seq<char>| t != last@;
            match choose_random(alts.as_slice()) {
                Some(n) => {
                    proof {
                        let i = choose|i: int| 0 <= i < alts@.len() && alts@[i] == n;
                        assert(views(alts@)[i] == n@);
                        assert(pred(views(alts@)[i]));
                        assert(imgs.contains(alts@[i]@));
                        assert(n@ != last@);
                    }
                    selected = n;
                },
                None => {
                    proof {
                        assert forall|i: int| 0 <= i < imgs.len() implies imgs[i] == last@ by {
                            if imgs[i] != last@ {
                                assert(pred(imgs[i]));
                                assert(imgs.filter(pred).contains(imgs[i]));
                            }
                        }
                    }
                },
            }
        }
    }
    Ok(selected)
}

/// With two or more distinct candidates and the remembered path among them, a random pick that
/// keeps clear of it differs from it.
pub proof fn random_pick_differs_from_last(images: Seq<Seq<char>>, last: Seq<char>, p: Seq<char>)
    requires
        strictly_ascending(images),
        images.len() >= 2,
        images.contains(last),
        avoids_last(images, Some(last), p),
    ensures
        p != last,
{
    assert(text_lt(images[0], images[1]));
    lemma_text_lt_irreflexive(images[0]);
    if images[0] == last {
        assert(images[1] != last);
    } else {
        assert(images[0] != last);
    }
}

/// Consecutive random picks over two or more distinct candidates never repeat, each pick
/// remembering the one before it.
pub proof fn random_picks_never_repeat(images: Seq<Seq<char>>, picks: Seq<Seq<char>>)
    requires
        strictly_ascending(images),
        images.len() >= 2,
        forall|i: int| 0 <= i < picks.len() ==> images.contains(#[trigger] picks[i]),
        forall|i: int|
            0 < i < picks.len() ==> avoids_last(
                images,
                Some(remembered_text(images, picks[i - 1])),
                #[trigger] picks[i],
            ),
    ensures
        forall|i: int| 0 < i < picks.len() ==> #[trigger] picks[i] != picks[i - 1],
{
    assert forall|i: int| 0 < i < picks.len() implies #[trigger] picks[i] != picks[i - 1] by {
        assert(images.contains(picks[i - 1]));
        assert(remembered_text(images, picks[i - 1]) == picks[i - 1]);
        assert(avoids_last(images, Some(remembered_text(images, picks[i - 1])), picks[i]));
        random_pick_differs_from_last(images, picks[i - 1], picks[i]);
    }
}

proof fn lemma_next_after(images: Seq<Seq<char>>, k: int)
    requires
        strictly_ascending(images),
        0 <= k < images.len(),
    ensures
        next_index(images, Some(images[k])) == (k + 1) % (images.len() as int),
{
    assert forall|j: int| 0 <= j < k implies images[j] != images[k] by {
        assert(text_lt(images[j], images[k]));
        lemma_text_lt_irreflexive(images[k]);
    }
    lemma_first_position(images, images[k], k);
}

proof fn lemma_next_picks_prefix(images: Seq<Seq<char>>, picks: Seq<Seq<char>>, i: int)
    requires
        strictly_ascending(images),
        images.len() > 0,
        picks.len() > 0,
        picks[0] == images[next_index(images, None)],
        forall|j: int|
            0 < j < picks.len() ==> #[trigger] picks[j] == images[next_index(
                images,
                Some(remembered_text(images, picks[j - 1])),
            )],
        0 <= i < picks.len(),
    ensures
        picks[i] == images[i % (images.len() as int)],
    decreases i,
{
    let n = images.len() as int;
    if i == 0 {
        vstd::arithmetic::div_mod::lemma_small_mod(0, n as nat);
    } else {
        lemma_next_picks_prefix(images, picks, i - 1);
        let k = (i - 1) % n;
        vstd::arithmetic::div_mod::lemma_mod_bound(i - 1, n);
        assert(picks[i - 1] == images[k]);
        assert(images.contains(images[k]));
        assert(remembered_text(images, picks[i - 1]) == images[k]);
        lemma_next_after(images, k);
        vstd::arithmetic::div_mod::lemma_add_mod_noop_right(1, i - 1, n);
        assert(picks[i] == images[(k + 1) % n]);
    }
}

/// Round-robin picking from an empty state, repeated once more than there are candidates,
/// visits every candidate in order and then comes back to the first.
pub proof fn next_picks_cycle(images: Seq<Seq<char>>, picks: Seq<Seq<char>>)
    requires
        strictly_ascending(images),
        images.len() > 0,
        picks.len() == images.len() + 1,
        picks[0] == images[next_index(images, None)],
        forall|j: int|
            0 < j < picks.len() ==> #[trigger] picks[j] == images[next_index(
                images,
                Some(remembered_text(images, picks[j - 1])),
            )],
    ensures
        forall|j: int| 0 <= j < images.len() ==> #[trigger] picks[j] == images[j],
        picks[images.len() as int] == images[0],
{
    let n = images.len() as int;
    assert forall|j: int| 0 <= j < n implies #[trigger] picks[j] == images[j] by {
        lemma_next_picks_prefix(images, picks, j);
        vstd::arithmetic::div_mod::lemma_small_mod(j as nat, n as nat);
    }
    lemma_next_picks_prefix(images, picks, n);
    vstd::arithmetic::div_mod::lemma_mod_self_0(n);
}

} // verus!
