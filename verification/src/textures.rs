use vstd::prelude::*;

verus! {

/// A pixel as its red, green, blue and alpha bytes.
pub type Rgba = [u8; 4];

/// Which texture an image belongs to.
#[derive(Clone, Copy, Debug, PartialEq, Eq, Structural)]
pub enum TextureKey {
    /// A texture the GUI library allocated.
    Managed(u64),
    /// A texture the user allocated.
    User(u64),
}

/// An image: its size in pixels and its pixels, row after row.
#[derive(Debug)]
pub struct TextureImage {
    pub width: usize,
    pub height: usize,
    pub pixels: Vec<Rgba>,
}

/// What an image holds.
pub struct ImageView {
    pub width: usize,
    pub height: usize,
    pub pixels: Seq<Rgba>,
}

impl TextureImage {
    pub open spec fn view(&self) -> ImageView {
        ImageView { width: self.width, height: self.height, pixels: self.pixels@ }
    }
}

/// The bytes of pixels, four per pixel, pixel after pixel.
pub open spec fn rgba_flat(s: Seq<Rgba>) -> Seq<u8>
    decreases s.len(),
{
    if s.len() == 0 {
        Seq::empty()
    } else {
        let p = s.last();
        rgba_flat(s.drop_last()) + seq![p[0], p[1], p[2], p[3]]
    }
}

/// The bytes of pixels, four per pixel, as a texture is uploaded.
pub fn rgba_bytes(pixels: &Vec<Rgba>) -> (bytes: Vec<u8>)
    ensures
        bytes@ == rgba_flat(pixels@),
{
    let mut bytes: Vec<u8> = Vec::new();
    let mut i: usize = 0;
    while i < pixels.len()
        invariant
            i <= pixels@.len(),
            bytes@ == rgba_flat(pixels@.subrange(0, i as int)),
        decreases pixels@.len() - i,
    {
        let p = pixels[i];
        bytes.push(p[0]);
        bytes.push(p[1]);
        bytes.push(p[2]);
        bytes.push(p[3]);
        proof {
            let next = pixels@.subrange(0, i + 1);
            assert(next.drop_last() =~= pixels@.subrange(0, i as int));
            assert(next.last() == p);
            assert(bytes@ =~= rgba_flat(next));
        }
        i = i + 1;
    }
    assert(pixels@.subrange(0, pixels@.len() as int) =~= pixels@);
    bytes
}

/// Four bytes per pixel.
pub proof fn law_four_bytes_per_pixel(s: Seq<Rgba>)
    ensures
        rgba_flat(s).len() == 4 * s.len(),
    decreases s.len(),
{
    if s.len() > 0 {
        law_four_bytes_per_pixel(s.drop_last());
    }
}

/// The bytes of a whole image. The image must hold exactly `width *
/// height` pixels.
pub fn image_bytes(image: &TextureImage) -> (bytes: Vec<u8>)
    requires
        image.width * image.height == image.pixels@.len(),
    ensures
        bytes@ == rgba_flat(image.pixels@),
{
    rgba_bytes(&image.pixels)
}

/// `row` written over `d` from position `start` on.
pub open spec fn splice(d: Seq<Rgba>, start: int, row: Seq<Rgba>) -> Seq<Rgba> {
    d.subrange(0, start) + row + d.subrange(start + row.len(), d.len() as int)
}

/// Where row `dy` of a patch placed at column `x`, row `y`, starts in an
/// image `dw` pixels wide.
pub open spec fn row_start(dw: int, x: int, y: int, dy: int) -> int {
    (y + dy) * dw + x
}

/// The first `rows` rows of a patch `w` pixels wide written, one after the
/// other, over the pixels `d` of an image `dw` pixels wide, the patch's top
/// left corner at column `x`, row `y`. Each row is written over `w`
/// consecutive pixels, running on into the next image row if it must.
pub open spec fn patch_rows(
    d: Seq<Rgba>,
    dw: int,
    x: int,
    y: int,
    src: Seq<Rgba>,
    w: int,
    rows: nat,
) -> Seq<Rgba>
    decreases rows,
{
    if rows == 0 {
        d
    } else {
        let r = rows - 1;
        splice(
            patch_rows(d, dw, x, y, src, w, (rows - 1) as nat),
            row_start(dw, x, y, r),
            src.subrange(r * w, r * w + w),
        )
    }
}

/// Whether row `k` of a patch `w` pixels wide, placed at column `x`, row
/// `y` of an image `dw` pixels wide, ends within `len` pixels.
pub open spec fn patch_row_within(len: int, dw: int, x: int, y: int, w: int, k: int) -> bool {
    (y + k) * dw + x + w <= len
}

/// Writing rows of a patch that fit keeps the image's length.
proof fn lemma_patch_rows_len(d: Seq<Rgba>, dw: int, x: int, y: int, src: Seq<Rgba>, w: int, rows: nat)
    requires
        x >= 0,
        y >= 0,
        dw >= 0,
        w >= 0,
        src.len() >= rows * w,
        forall|k: int| 0 <= k < rows ==> #[trigger] patch_row_within(d.len() as int, dw, x, y, w, k),
    ensures
        patch_rows(d, dw, x, y, src, w, rows).len() == d.len(),
    decreases rows,
{
    if rows > 0 {
        let r = rows - 1;
        assert(src.len() >= r * w) by (nonlinear_arith)
            requires
                src.len() >= rows * w,
                r == rows - 1,
                w >= 0,
        ;
        lemma_patch_rows_len(d, dw, x, y, src, w, r as nat);
        assert(patch_row_within(d.len() as int, dw, x, y, w, r));
        assert(0 <= (y + r) * dw) by (nonlinear_arith)
            requires
                y >= 0,
                r >= 0,
                dw >= 0,
        ;
        assert(r * w + w <= src.len()) by (nonlinear_arith)
            requires
                src.len() >= rows * w,
                r == rows - 1,
                w >= 0,
        ;
        assert(0 <= r * w) by (nonlinear_arith)
            requires
                r >= 0,
                w >= 0,
        ;
    }
}

/// Row `r` of a patch placed at column `x`, row `y` of an image `dw`
/// pixels wide lands at index `(y + r) * dw + x`: writing it puts the
/// row's `w` pixels there, in order, and changes no other pixel of what the
/// earlier rows left.
pub proof fn law_patch_row_lands_in_place(
    d: Seq<Rgba>,
    dw: int,
    x: int,
    y: int,
    src: Seq<Rgba>,
    w: int,
    r: nat,
)
    requires
        x >= 0,
        y >= 0,
        dw >= 0,
        w >= 0,
        src.len() >= (r + 1) * w,
        forall|k: int| 0 <= k <= r ==> #[trigger] patch_row_within(d.len() as int, dw, x, y, w, k),
    ensures
        ({
            let before = patch_rows(d, dw, x, y, src, w, r);
            let after = patch_rows(d, dw, x, y, src, w, (r + 1) as nat);
            let start = (y + r) * dw + x;
            &&& after.len() == d.len()
            &&& forall|k: int| start <= k < start + w ==> #[trigger] after[k] == src[r * w + (k - start)]
            &&& forall|k: int|
                0 <= k < d.len() && !(start <= k < start + w) ==> #[trigger] after[k] == before[k]
        }),
{
    assert(src.len() >= r * w) by (nonlinear_arith)
        requires
            src.len() >= (r + 1) * w,
            w >= 0,
    ;
    lemma_patch_rows_len(d, dw, x, y, src, w, r);
    lemma_patch_rows_len(d, dw, x, y, src, w, (r + 1) as nat);
    assert(patch_row_within(d.len() as int, dw, x, y, w, r as int));
    assert(0 <= (y + r) * dw) by (nonlinear_arith)
        requires
            y >= 0,
            r >= 0,
            dw >= 0,
    ;
    assert(r * w + w == (r + 1) * w) by (nonlinear_arith);
    assert(0 <= r * w) by (nonlinear_arith)
        requires
            r >= 0,
            w >= 0,
    ;
}

/// A one-pixel patch written at column `x`, row `y` changes exactly pixel
/// `y * dw + x` of an image `dw` pixels wide, to the patch's pixel, and
/// leaves every other pixel as it was.
pub proof fn law_pixel_patch_lands_at_its_place(d: Seq<Rgba>, dw: int, x: int, y: int, p: Rgba)
    requires
        x >= 0,
        y >= 0,
        dw >= 0,
        y * dw + x < d.len(),
    ensures
        patch_rows(d, dw, x, y, seq![p], 1, 1) == d.update(y * dw + x, p),
{
    assert(patch_row_within(d.len() as int, dw, x, y, 1, 0));
    law_patch_row_lands_in_place(d, dw, x, y, seq![p], 1, 0);
    let after = patch_rows(d, dw, x, y, seq![p], 1, 1);
    assert(after[y * dw + x] == p);
    assert(after =~= d.update(y * dw + x, p));
}

/// Whether a patch `w` pixels wide, of `len` pixels, can be written over an
/// image of `dest_len` pixels, `dw` wide, at column `x`, row `y`: its width
/// is not zero, it is whole rows, its row numbers fit in a `usize`, and
/// every row lands inside the image.
pub open spec fn patch_fits(dest_len: int, dw: int, x: int, y: int, len: int, w: int) -> bool {
    &&& w > 0
    &&& len % w == 0
    &&& y + len / w <= usize::MAX
    &&& forall|dy: int| 0 <= dy < len / w ==> #[trigger] row_start(dw, x, y, dy) + w <= dest_len
}

/// The first rows of a patch as wide as the image, written from its top
/// left corner, replace the image's first rows.
proof fn lemma_full_width_rows(d: Seq<Rgba>, src: Seq<Rgba>, w: int, rows: nat)
    requires
        w > 0,
        d.len() == src.len(),
        rows * w <= src.len(),
    ensures
        patch_rows(d, w, 0, 0, src, w, rows) == src.subrange(0, rows * w) + d.subrange(
            rows * w,
            d.len() as int,
        ),
    decreases rows,
{
    if rows > 0 {
        let r = (rows - 1) as nat;
        assert(r * w + w == rows * w) by (nonlinear_arith)
            requires
                r == rows - 1,
        ;
        assert(r * w >= 0) by (nonlinear_arith)
            requires
                w > 0,
        ;
        lemma_full_width_rows(d, src, w, r);
        assert(row_start(w, 0, 0, r as int) == r * w);
        let prev = patch_rows(d, w, 0, 0, src, w, r);
        assert(patch_rows(d, w, 0, 0, src, w, rows) =~= src.subrange(0, rows * w) + d.subrange(
            rows * w,
            d.len() as int,
        ));
    } else {
        assert(rows * w == 0) by (nonlinear_arith)
            requires
                rows == 0,
        ;
        assert(patch_rows(d, w, 0, 0, src, w, rows) =~= src.subrange(0, 0) + d.subrange(0, d.len() as int));
    }
}

/// A patch as large as the image, written at its top left corner,
/// replaces the image's pixels.
pub proof fn law_whole_patch_replaces(d: Seq<Rgba>, src: Seq<Rgba>, w: int)
    requires
        w > 0,
        d.len() == src.len(),
        (src.len() as int) % w == 0,
    ensures
        patch_rows(d, w, 0, 0, src, w, ((src.len() as int) / w) as nat) == src,
{
    let rows = ((src.len() as int) / w) as nat;
    assert(rows * w == src.len()) by (nonlinear_arith)
        requires
            (src.len() as int) % w == 0,
            rows == (src.len() as int) / w,
            w > 0,
    ;
    lemma_full_width_rows(d, src, w, rows);
    assert(src.subrange(0, rows * w) + d.subrange(rows * w, d.len() as int) =~= src);
}

/// Writes the rows of `src` (`w` pixels wide) over `dest` at column `x`,
/// row `y`, as [`patch_rows`] states.
pub fn write_patch(dest: &mut TextureImage, x: usize, y: usize, src: &Vec<Rgba>, w: usize)
    requires
        patch_fits(
            old(dest).pixels@.len() as int,
            old(dest).width as int,
            x as int,
            y as int,
            src@.len() as int,
            w as int,
        ),
    ensures
        final(dest).width == old(dest).width,
        final(dest).height == old(dest).height,
        final(dest).pixels@ == patch_rows(
            old(dest).pixels@,
            old(dest).width as int,
            x as int,
            y as int,
            src@,
            w as int,
            ((src@.len() as int) / (w as int)) as nat,
        ),
{
    let src_len = src.len();
    let dest_len = dest.pixels.len();
    let rows = src_len / w;
    let dw = dest.width;
    let mut dy: usize = 0;
    let mut base: usize = 0;
    proof {
        assert(rows * w == src@.len()) by (nonlinear_arith)
            requires
                (src@.len() as int) % (w as int) == 0,
                rows == (src@.len() as int) / (w as int),
                w > 0,
        ;
    }
    while dy < rows
        invariant
            src_len == src@.len(),
            dest_len == old(dest).pixels@.len(),
            rows == (src@.len() as int) / (w as int),
            rows * w == src@.len(),
            dw == dest.width,
            dw == old(dest).width,
            dest.height == old(dest).height,
            dest.pixels@.len() == old(dest).pixels@.len(),
            patch_fits(
                old(dest).pixels@.len() as int,
                dw as int,
                x as int,
                y as int,
                src@.len() as int,
                w as int,
            ),
            dy <= rows,
            base == dy * w,
            dest.pixels@ == patch_rows(old(dest).pixels@, dw as int, x as int, y as int, src@, w as int, dy as nat),
        decreases rows - dy,
    {
        assert(row_start(dw as int, x as int, y as int, dy as int) + w <= old(dest).pixels@.len());
        let row = y + dy;
        assert(row * dw + x + w <= dest_len);
        assert(row * dw >= 0) by (nonlinear_arith)
            requires
                row >= 0,
                dw >= 0,
        ;
        let start = row * dw + x;
        assert(base + w <= src@.len()) by (nonlinear_arith)
            requires
                base == dy * w,
                dy < rows,
                rows * w == src@.len(),
        ;
        let ghost prev = dest.pixels@;
        let mut c: usize = 0;
        while c < w
            invariant
                c <= w,
                src_len == src@.len(),
                dest_len == prev.len(),
                base + w <= src_len,
                start + w <= dest_len,
                dest.pixels@.len() == prev.len(),
                dw == dest.width,
                dest.width == old(dest).width,
                dest.height == old(dest).height,
                forall|i: int|
                    0 <= i < prev.len() ==> #[trigger] dest.pixels@[i] == if start <= i < start + c {
                        src@[base + i - start]
                    } else {
                        prev[i]
                    },
            decreases w - c,
        {
            dest.pixels.set(start + c, src[base + c]);
            c = c + 1;
        }
        proof {
            let row = src@.subrange(base as int, base + w);
            assert(dest.pixels@ =~= splice(prev, start as int, row));
            assert(dy * w == base);
            assert(row_start(dw as int, x as int, y as int, dy as int) == start);
        }
        base = base + w;
        dy = dy + 1;
        assert(base == dy * w) by (nonlinear_arith)
            requires
                base == (dy - 1) * w + w,
        ;
    }
}

/// Looks an image up by its key.
pub open spec fn lookup(entries: Seq<(TextureKey, TextureImage)>, key: TextureKey) -> Option<ImageView>
    decreases entries.len(),
{
    if entries.len() == 0 {
        None
    } else if entries[0].0 == key {
        Some(entries[0].1.view())
    } else {
        lookup(entries.drop_first(), key)
    }
}

/// Keys listed at most once.
pub open spec fn keys_unique(entries: Seq<(TextureKey, TextureImage)>) -> bool {
    forall|i: int, j: int| 0 <= i < j < entries.len() ==> entries[i].0 != entries[j].0
}

/// The images kept on the CPU side for each texture, so that patches can be
/// applied before a texture is uploaded again.
pub struct TextureCache {
    entries: Vec<(TextureKey, TextureImage)>,
}

/// The lookup of a key listed at `k` is the entry at `k`.
proof fn lemma_lookup_at(entries: Seq<(TextureKey, TextureImage)>, key: TextureKey, k: int)
    requires
        keys_unique(entries),
        0 <= k < entries.len(),
        entries[k].0 == key,
    ensures
        lookup(entries, key) == Some(entries[k].1.view()),
    decreases entries.len(),
{
    if k > 0 {
        let t = entries.drop_first();
        assert(entries[0].0 != key);
        lemma_lookup_at(t, key, k - 1);
    }
}

/// A key listed nowhere is found nowhere.
proof fn lemma_lookup_absent(entries: Seq<(TextureKey, TextureImage)>, key: TextureKey)
    requires
        forall|j: int| 0 <= j < entries.len() ==> #[trigger] entries[j].0 != key,
    ensures
        lookup(entries, key) is None,
    decreases entries.len(),
{
    if entries.len() > 0 {
        let t = entries.drop_first();
        assert forall|j: int| 0 <= j < t.len() implies #[trigger] t[j].0 != key by {
            assert(t[j] == entries[j + 1]);
        }
        lemma_lookup_absent(t, key);
    }
}

/// Lookups of keys listed at the same places, with the same images, agree.
proof fn lemma_lookup_same(
    a: Seq<(TextureKey, TextureImage)>,
    b: Seq<(TextureKey, TextureImage)>,
    key: TextureKey,
)
    requires
        keys_unique(a),
        keys_unique(b),
        forall|j: int| 0 <= j < a.len() && #[trigger] a[j].0 == key ==> exists|i: int| 0 <= i < b.len() && b[i].0 == key && b[i].1.view() == a[j].1.view(),
        forall|i: int| 0 <= i < b.len() && #[trigger] b[i].0 == key ==> exists|j: int| 0 <= j < a.len() && a[j].0 == key,
    ensures
        lookup(a, key) == lookup(b, key),
{
    if exists|j: int| 0 <= j < a.len() && a[j].0 == key {
        let j = choose|j: int| 0 <= j < a.len() && a[j].0 == key;
        lemma_lookup_at(a, key, j);
        let i = choose|i: int| 0 <= i < b.len() && b[i].0 == key && b[i].1.view() == a[j].1.view();
        lemma_lookup_at(b, key, i);
    } else {
        lemma_lookup_absent(a, key);
        assert forall|i: int| 0 <= i < b.len() implies #[trigger] b[i].0 != key by {
            if b[i].0 == key {
                let j = choose|j: int| 0 <= j < a.len() && a[j].0 == key;
                assert(a[j].0 == key);
            }
        }
        lemma_lookup_absent(b, key);
    }
}

/// Replacing the image at `p`, under the same key, leaves every other
/// key's lookup as it was.
proof fn lemma_same_keys_elsewhere(
    old_entries: Seq<(TextureKey, TextureImage)>,
    e: Seq<(TextureKey, TextureImage)>,
    key: TextureKey,
    p: int,
)
    requires
        keys_unique(old_entries),
        0 <= p < old_entries.len(),
        old_entries[p].0 == key,
        e.len() == old_entries.len(),
        e[p].0 == key,
        forall|j: int| 0 <= j < e.len() && j != p ==> #[trigger] e[j] == old_entries[j],
    ensures
        keys_unique(e),
        forall|k: TextureKey| k != key ==> #[trigger] lookup(e, k) == lookup(old_entries, k),
{
    assert forall|i: int, j: int| 0 <= i < j < e.len() implies e[i].0 != e[j].0 by {
        if i != p && j != p {
            assert(e[i] == old_entries[i] && e[j] == old_entries[j]);
        } else if i == p {
            assert(e[j] == old_entries[j]);
        } else {
            assert(e[i] == old_entries[i]);
        }
    }
    assert forall|k: TextureKey| k != key implies #[trigger] lookup(e, k) == lookup(old_entries, k) by {
        assert forall|j: int| 0 <= j < e.len() && #[trigger] e[j].0 == k implies exists|i: int| 0 <= i < old_entries.len() && old_entries[i].0 == k && old_entries[i].1.view() == e[j].1.view() by {
            assert(j != p);
            assert(e[j] == old_entries[j]);
        }
        assert forall|i: int| 0 <= i < old_entries.len() && #[trigger] old_entries[i].0 == k implies exists|j: int| 0 <= j < e.len() && e[j].0 == k by {
            assert(i != p);
            assert(e[i] == old_entries[i]);
        }
        lemma_lookup_same(e, old_entries, k);
    }
}

impl TextureCache {
    /// The entries of the cache.
    pub closed spec fn entries(&self) -> Seq<(TextureKey, TextureImage)> {
        self.entries@
    }

    /// The image kept for a texture, if any.
    pub open spec fn image_of(&self, key: TextureKey) -> Option<ImageView> {
        lookup(self.entries(), key)
    }

    /// The invariant of the cache: one image per texture.
    pub open spec fn well_formed(&self) -> bool {
        keys_unique(self.entries())
    }

    /// An empty cache.
    pub fn new() -> (c: TextureCache)
        ensures
            c.well_formed(),
            forall|k: TextureKey| #[trigger] c.image_of(k) is None,
    {
        TextureCache { entries: Vec::new() }
    }

    /// Where the image of `key` is kept.
    fn position(&self, key: TextureKey) -> (p: Option<usize>)
        requires
            self.well_formed(),
        ensures
            match p {
                Some(p) => p < self.entries().len() && self.entries()[p as int].0 == key
                    && self.image_of(key) == Some(self.entries()[p as int].1.view()),
                None => self.image_of(key) is None && forall|j: int|
                    0 <= j < self.entries().len() ==> #[trigger] self.entries()[j].0 != key,
            },
    {
        let mut i: usize = 0;
        while i < self.entries.len()
            invariant
                self.well_formed(),
                i <= self.entries@.len(),
                forall|j: int| 0 <= j < i ==> #[trigger] self.entries@[j].0 != key,
            decreases self.entries@.len() - i,
        {
            if self.entries[i].0 == key {
                proof {
                    lemma_lookup_at(self.entries@, key, i as int);
                }
                return Some(i);
            }
            i = i + 1;
        }
        proof {
            lemma_lookup_absent(self.entries@, key);
        }
        None
    }

    /// The image kept for a texture, if any.
    pub fn get(&self, key: TextureKey) -> (img: Option<&TextureImage>)
        requires
            self.well_formed(),
        ensures
            match img {
                Some(i) => self.image_of(key) == Some(i.view()),
                None => self.image_of(key) is None,
            },
    {
        match self.position(key) {
            Some(p) => Some(&self.entries[p].1),
            None => None,
        }
    }

    /// Whether a patch can be written over the image kept for `key`: there
    /// is no image (the patch is then dropped), or the patch fits it.
    pub fn patch_fits_image(&self, key: TextureKey, x: usize, y: usize, patch: &TextureImage) -> (fits: bool)
        requires
            self.well_formed(),
        ensures
            fits == match self.image_of(key) {
                None => true,
                Some(img) => patch_fits(
                    img.pixels.len() as int,
                    img.width as int,
                    x as int,
                    y as int,
                    patch.pixels@.len() as int,
                    patch.width as int,
                ),
            },
    {
        match self.position(key) {
            None => true,
            Some(p) => {
                let img = &self.entries[p].1;
                let n_pixels = img.pixels.len();
                let w = patch.width;
                let len = patch.pixels.len();
                if w == 0 || len % w != 0 {
                    return false;
                }
                let rows = len / w;
                if y > usize::MAX - rows {
                    return false;
                }
                let mut dy: usize = 0;
                while dy < rows
                    invariant
                        self.image_of(key) == Some(img.view()),
                        n_pixels == img.pixels@.len(),
                        len == patch.pixels@.len(),
                        w == patch.width,
                        w > 0,
                        rows == len / w,
                        y + rows <= usize::MAX,
                        dy <= rows,
                        forall|d: int| 0 <= d < dy ==> #[trigger] row_start(img.width as int, x as int, y as int, d) + w <= img.pixels@.len(),
                    decreases rows - dy,
                {
                    let row = y + dy;
                    assert(row_start(img.width as int, x as int, y as int, dy as int) == row * img.width + x);
                    let ghost at = row_start(img.width as int, x as int, y as int, dy as int);
                    let start = match row.checked_mul(img.width) {
                        Some(v) => v,
                        None => {
                            assert(at + w > img.pixels@.len());
                            assert(!patch_fits(n_pixels as int, img.width as int, x as int, y as int, len as int, w as int));
                            return false;
                        },
                    };
                    let end = match start.checked_add(x) {
                        Some(v) => match v.checked_add(w) {
                            Some(e) => e,
                            None => {
                                assert(at + w > img.pixels@.len());
                                assert(!patch_fits(n_pixels as int, img.width as int, x as int, y as int, len as int, w as int));
                                return false;
                            },
                        },
                        None => {
                            assert(at + w > img.pixels@.len());
                            assert(!patch_fits(n_pixels as int, img.width as int, x as int, y as int, len as int, w as int));
                            return false;
                        },
                    };
                    if end > n_pixels {
                        assert(at + w > img.pixels@.len());
                        assert(!patch_fits(n_pixels as int, img.width as int, x as int, y as int, len as int, w as int));
                        return false;
                    }
                    dy = dy + 1;
                }
                true
            },
        }
    }

    /// Applies a change to the image of a texture: without a position the
    /// image replaces the one kept; with a position it is a patch written
    /// over the kept image there (and dropped when no image is kept). Other
    /// textures are untouched. Returns whether an image is kept for the
    /// texture afterwards (it is then uploaded again).
    pub fn apply(&mut self, key: TextureKey, image: TextureImage, pos: Option<(usize, usize)>) -> (kept: bool)
        requires
            old(self).well_formed(),
            pos matches Some((x, y)) ==> match old(self).image_of(key) {
                None => true,
                Some(img) => patch_fits(
                    img.pixels.len() as int,
                    img.width as int,
                    x as int,
                    y as int,
                    image.pixels@.len() as int,
                    image.width as int,
                ),
            },
        ensures
            final(self).well_formed(),
            forall|k: TextureKey| k != key ==> #[trigger] final(self).image_of(k) == old(self).image_of(k),
            kept == final(self).image_of(key) is Some,
            match pos {
                None => final(self).image_of(key) == Some(image.view()),
                Some((x, y)) => match old(self).image_of(key) {
                    None => final(self).image_of(key) is None,
                    Some(img) => final(self).image_of(key) == Some(
                        ImageView {
                            width: img.width,
                            height: img.height,
                            pixels: patch_rows(
                                img.pixels,
                                img.width as int,
                                x as int,
                                y as int,
                                image.pixels@,
                                image.width as int,
                                ((image.pixels@.len() as int) / (image.width as int)) as nat,
                            ),
                        },
                    ),
                },
            },
    {
        let ghost old_entries = self.entries@;
        match pos {
            None => {
                let ghost iv = image.view();
                match self.position(key) {
                    Some(p) => {
                        let _ = self.entries.remove(p);
                        self.entries.insert(p, (key, image));
                        proof {
                            let e = self.entries@;
                            assert(e =~= old_entries.update(p as int, e[p as int]));
                            lemma_same_keys_elsewhere(old_entries, e, key, p as int);
                            lemma_lookup_at(e, key, p as int);
                        }
                    },
                    None => {
                        self.entries.push((key, image));
                        proof {
                            let e = self.entries@;
                            assert forall|i: int, j: int| 0 <= i < j < e.len() implies e[i].0 != e[j].0 by {
                                if j == e.len() - 1 {
                                    assert(e[i] == old_entries[i]);
                                }
                            }
                            lemma_lookup_at(e, key, e.len() - 1);
                            assert forall|k: TextureKey| k != key implies #[trigger] lookup(e, k) == lookup(old_entries, k) by {
                                assert forall|j: int| 0 <= j < e.len() && #[trigger] e[j].0 == k implies exists|i: int| 0 <= i < old_entries.len() && old_entries[i].0 == k && old_entries[i].1.view() == e[j].1.view() by {
                                    assert(e[j] == old_entries[j]);
                                }
                                assert forall|i: int| 0 <= i < old_entries.len() && #[trigger] old_entries[i].0 == k implies exists|j: int| 0 <= j < e.len() && e[j].0 == k by {
                                    assert(e[i] == old_entries[i]);
                                }
                                lemma_lookup_same(e, old_entries, k);
                            }
                        }
                    },
                }
                true
            },
            Some((x, y)) => {
                match self.position(key) {
                    Some(p) => {
                        let (k0, mut img) = self.entries.remove(p);
                        let ghost before = img.view();
                        write_patch(&mut img, x, y, &image.pixels, image.width);
                        self.entries.insert(p, (k0, img));
                        proof {
                            let e = self.entries@;
                            assert(e =~= old_entries.update(p as int, e[p as int]));
                            lemma_same_keys_elsewhere(old_entries, e, key, p as int);
                            lemma_lookup_at(e, key, p as int);
                            assert(e[p as int].1.view() =~= ImageView {
                                width: before.width,
                                height: before.height,
                                pixels: patch_rows(
                                    before.pixels,
                                    before.width as int,
                                    x as int,
                                    y as int,
                                    image.pixels@,
                                    image.width as int,
                                    ((image.pixels@.len() as int) / (image.width as int)) as nat,
                                ),
                            });
                        }
                        true
                    },
                    None => false,
                }
            },
        }
    }

    /// Drops the image kept for a texture; other textures are untouched.
    pub fn free(&mut self, key: TextureKey)
        requires
            old(self).well_formed(),
        ensures
            final(self).well_formed(),
            final(self).image_of(key) is None,
            forall|k: TextureKey| k != key ==> #[trigger] final(self).image_of(k) == old(self).image_of(k),
    {
        let ghost old_entries = self.entries@;
        match self.position(key) {
            Some(p) => {
                let _ = self.entries.remove(p);
                proof {
                    let e = self.entries@;
                    assert(e =~= old_entries.remove(p as int));
                    assert forall|j: int| 0 <= j < e.len() implies #[trigger] e[j].0 != key by {
                        if j < p {
                            assert(e[j] == old_entries[j]);
                        } else {
                            assert(e[j] == old_entries[j + 1]);
                        }
                    }
                    lemma_lookup_absent(e, key);
                    assert forall|k: TextureKey| k != key implies #[trigger] lookup(e, k) == lookup(old_entries, k) by {
                        assert forall|j: int| 0 <= j < e.len() && #[trigger] e[j].0 == k implies exists|i: int| 0 <= i < old_entries.len() && old_entries[i].0 == k && old_entries[i].1.view() == e[j].1.view() by {
                            if j < p {
                                assert(e[j] == old_entries[j]);
                            } else {
                                assert(e[j] == old_entries[j + 1]);
                            }
                        }
                        assert forall|i: int| 0 <= i < old_entries.len() && #[trigger] old_entries[i].0 == k implies exists|j: int| 0 <= j < e.len() && e[j].0 == k by {
                            if i < p {
                                assert(e[i] == old_entries[i]);
                            } else {
                                assert(i != p);
                                assert(e[i - 1] == old_entries[i]);
                            }
                        }
                        lemma_lookup_same(e, old_entries, k);
                    }
                }
            },
            None => {},
        }
    }
}

/// A primitive is drawn only when it has at least three vertices.
pub fn mesh_is_drawable(vertex_count: usize) -> (drawable: bool)
    ensures
        drawable == (vertex_count >= 3),
{
    vertex_count >= 3
}

} // verus!
