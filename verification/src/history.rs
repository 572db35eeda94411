//! Edit history: undo and redo stacks of compressed snapshots, the live
//! `tmp` image shown while editing, the committed `final` image, and the
//! crop lineage of pristine base canvases that content-restoring tools
//! consult.

use vstd::prelude::*;
use crate::canvas::Canvas;
use crate::codec::CompressedImage;

verus! {

/// A working canvas tagged with the crop-lineage generation it was
/// derived from.
pub struct Image {
    pub image: Canvas,
    pub crop_index: usize,
}

impl Image {
    pub open spec fn wf(self) -> bool {
        self.image.wf()
    }

    pub fn new(image: Canvas, crop_index: usize) -> (r: Image)
        ensures
            r.image == image,
            r.crop_index == crop_index,
    {
        Image { image, crop_index }
    }

    /// An independently owned copy of the underlying canvas.
    pub fn get_image(&self) -> (r: Canvas)
        ensures
            r.same_image(self.image),
            r.wf() == self.image.wf(),
    {
        self.image.duplicate()
    }

    pub fn get_crop_index(&self) -> (r: usize)
        ensures
            r == self.crop_index,
    {
        self.crop_index
    }

    pub fn get_width(&self) -> (r: u32)
        ensures
            r == self.image.width,
    {
        self.image.width
    }

    pub fn get_height(&self) -> (r: u32)
        ensures
            r == self.image.height,
    {
        self.image.height
    }

    /// An independently owned copy of the whole tagged image.
    pub fn duplicate(&self) -> (r: Image)
        ensures
            r.image.same_image(self.image),
            r.image.wf() == self.image.wf(),
            r.crop_index == self.crop_index,
    {
        Image { image: self.image.duplicate(), crop_index: self.crop_index }
    }
}

/// The state of one snapshot, abstracted to what the history semantics
/// speak of: its dimensions, pixel bytes, and lineage tag.
pub ghost struct SnapModel {
    pub width: u32,
    pub height: u32,
    pub pixels: Seq<u8>,
    pub crop_index: int,
}

/// The abstract state of the whole history stack. Both stacks keep their
/// most recent entry last.
pub ghost struct StackModel {
    pub undo: Seq<SnapModel>,
    pub redo: Seq<SnapModel>,
    pub tmp: SnapModel,
    pub fin: SnapModel,
    pub crops: Seq<Seq<u8>>,
}

pub open spec fn snap_of_entry(e: CompressedImage) -> SnapModel {
    SnapModel {
        width: e.width,
        height: e.height,
        pixels: e.pixels@,
        crop_index: e.crop_index as int,
    }
}

pub open spec fn snap_of_image(im: Image) -> SnapModel {
    SnapModel {
        width: im.image.width,
        height: im.image.height,
        pixels: im.image.pixels@,
        crop_index: im.crop_index as int,
    }
}

/// One undo step on the abstract state: the most recent committed
/// snapshot moves to the redo stack and the live image becomes the new
/// most recent snapshot. Meaningful when the undo stack holds more than
/// the seed entry.
pub open spec fn spec_undo(m: StackModel) -> StackModel {
    StackModel {
        undo: m.undo.drop_last(),
        redo: m.redo.push(m.undo.last()),
        tmp: m.undo.drop_last().last(),
        fin: m.fin,
        crops: m.crops,
    }
}

/// One redo step on the abstract state: the most recently undone
/// snapshot moves back to the undo stack and becomes the live image.
/// Meaningful when the redo stack is nonempty.
pub open spec fn spec_redo(m: StackModel) -> StackModel {
    StackModel {
        undo: m.undo.push(m.redo.last()),
        redo: m.redo.drop_last(),
        tmp: m.redo.last(),
        fin: m.fin,
        crops: m.crops,
    }
}

/// `n` undo steps.
pub open spec fn spec_undo_n(m: StackModel, n: nat) -> StackModel
    decreases n,
{
    if n == 0 {
        m
    } else {
        spec_undo(spec_undo_n(m, (n - 1) as nat))
    }
}

/// `n` redo steps.
pub open spec fn spec_redo_n(m: StackModel, n: nat) -> StackModel
    decreases n,
{
    if n == 0 {
        m
    } else {
        spec_redo(spec_redo_n(m, (n - 1) as nat))
    }
}

/// A display-coherent state: the live image is the most recent committed
/// snapshot, as it is right after any commit, undo or redo.
pub open spec fn display_coherent(m: StackModel) -> bool {
    m.undo.len() >= 1 && m.tmp == m.undo.last()
}

/// Undoing once and then redoing once returns the abstract state to
/// where it was, provided the live image showed the most recent
/// snapshot and a real undo step was possible.
pub proof fn lemma_undo_redo_inverse(m: StackModel)
    requires
        m.undo.len() >= 2,
        display_coherent(m),
    ensures
        spec_redo(spec_undo(m)) == m,
{
    let u = spec_undo(m);
    assert(u.undo.push(u.redo.last()) =~= m.undo);
    assert(u.redo.drop_last() =~= m.redo);
}

/// Undo, then redo, each `n` times, restores the abstract state exactly:
/// the live image, both stacks, the committed image and the crop lineage
/// all return to their starting values. `n` is capped so that the seed
/// entry is never popped.
pub proof fn lemma_undo_redo_roundtrip(m: StackModel, n: nat)
    requires
        n < m.undo.len(),
        display_coherent(m),
    ensures
        spec_redo_n(spec_undo_n(m, n), n) == m,
    decreases n,
{
    if n > 0 {
        let m1 = spec_undo(m);
        assert(spec_undo_n(m, n) == spec_undo_n(m1, (n - 1) as nat)) by {
            lemma_undo_n_shift(m, n);
        }
        assert(display_coherent(m1));
        lemma_undo_redo_roundtrip(m1, (n - 1) as nat);
        assert(spec_redo_n(spec_undo_n(m, n), (n - 1) as nat) == m1);
        lemma_undo_redo_inverse(m);
    }
}

/// Unfolding `n` undo steps from the other end: doing `n` steps is one
/// step followed by `n - 1` steps.
proof fn lemma_undo_n_shift(m: StackModel, n: nat)
    requires
        1 <= n,
    ensures
        spec_undo_n(m, n) == spec_undo_n(spec_undo(m), (n - 1) as nat),
    decreases n,
{
    if n == 1 {
        assert(spec_undo_n(m, 1) == spec_undo(spec_undo_n(m, 0)));
        assert(spec_undo_n(spec_undo(m), 0) == spec_undo(m));
    } else {
        lemma_undo_n_shift(m, (n - 1) as nat);
        assert(spec_undo_n(m, n) == spec_undo(spec_undo_n(m, (n - 1) as nat)));
        assert(spec_undo_n(spec_undo(m), (n - 1) as nat) == spec_undo(
            spec_undo_n(spec_undo(m), (n - 2) as nat),
        ));
    }
}


/// What committing a crop does to the stack: with `cur` the most recent
/// snapshot (or the committed image when the undo stack is empty), the
/// crop rectangle is clamped against `cur`'s dimensions; the crop of
/// `cur`'s backing lineage generation by that rectangle becomes a new
/// generation, and the crop of `cur` itself, tagged with that
/// generation, is pushed as a committed snapshot and becomes both the
/// live and the committed image. The redo stack is cleared.
pub open spec fn commit_crop_post(
    pre: ImageStack,
    post: ImageStack,
    x: u32,
    y: u32,
    w: u32,
    h: u32,
) -> bool {
    let m = pre.model();
    let cur = if m.undo.len() > 0 {
        m.undo.last()
    } else {
        m.fin
    };
    let gen = m.crops.len() as int;
    let cw = crate::canvas::crop_len(cur.width, x, w);
    let ch = crate::canvas::crop_len(cur.height, y, h);
    let newpix = crate::canvas::cropped_pixels(cur.pixels, cur.width, cur.height, x, y, w, h);
    let newbase = crate::canvas::cropped_pixels(
        m.crops[cur.crop_index],
        cur.width,
        cur.height,
        x,
        y,
        w,
        h,
    );
    let s = (SnapModel { width: cw as u32, height: ch as u32, pixels: newpix, crop_index: gen });
    &&& post.model().crops =~= m.crops.push(newbase)
    &&& post.crop_images@.last().width == cw
    &&& post.crop_images@.last().height == ch
    &&& post.model().undo =~= m.undo.push(s)
    &&& post.model().redo =~= Seq::<SnapModel>::empty()
    &&& post.model().tmp == s
    &&& post.model().fin == s
}

/// The undo/redo history of one edit session.
pub struct ImageStack {
    pub images: Vec<CompressedImage>,
    pub redo_images: Vec<CompressedImage>,
    pub crop_images: Vec<Canvas>,
    pub tmp_image: Image,
    pub final_image: Image,
}

impl ImageStack {
    /// A compressed entry is coherent with the crop lineage: well formed,
    /// tagged with an existing generation, and of that generation's
    /// dimensions.
    pub open spec fn entry_ok(self, e: CompressedImage) -> bool {
        &&& e.wf()
        &&& e.crop_index < self.crop_images@.len()
        &&& self.crop_images@[e.crop_index as int].width == e.width
        &&& self.crop_images@[e.crop_index as int].height == e.height
    }

    /// As `entry_ok`, for a working image.
    pub open spec fn image_ok(self, im: Image) -> bool {
        &&& im.image.wf()
        &&& im.crop_index < self.crop_images@.len()
        &&& self.crop_images@[im.crop_index as int].width == im.image.width
        &&& self.crop_images@[im.crop_index as int].height == im.image.height
    }

    pub open spec fn wf(self) -> bool {
        &&& 1 <= self.crop_images@.len()
        &&& forall|i: int|
            0 <= i < self.crop_images@.len() ==> (#[trigger] self.crop_images@[i]).wf()
        &&& forall|i: int|
            0 <= i < self.images@.len() ==> self.entry_ok(#[trigger] self.images@[i])
        &&& forall|i: int|
            0 <= i < self.redo_images@.len() ==> self.entry_ok(#[trigger] self.redo_images@[i])
        &&& self.image_ok(self.tmp_image)
        &&& self.image_ok(self.final_image)
    }

    /// The abstract state: stacks of snapshot models, most recent last.
    pub open spec fn model(self) -> StackModel {
        StackModel {
            undo: self.images@.map_values(|e: CompressedImage| snap_of_entry(e)),
            redo: self.redo_images@.map_values(|e: CompressedImage| snap_of_entry(e)),
            tmp: snap_of_image(self.tmp_image),
            fin: snap_of_image(self.final_image),
            crops: self.crop_images@.map_values(|c: Canvas| c.pixels@),
        }
    }

    /// Seed a fresh session from a captured canvas: one undo entry, no
    /// redo entries, one lineage generation, and the capture as both the
    /// live and the committed image.
    pub fn new(image: Canvas) -> (r: ImageStack)
        requires
            image.wf(),
        ensures
            r.wf(),
            r.model().undo =~= seq![snap_of_image(Image { image, crop_index: 0 })],
            r.model().redo =~= Seq::<SnapModel>::empty(),
            r.model().tmp == snap_of_image(Image { image, crop_index: 0 }),
            r.model().fin == snap_of_image(Image { image, crop_index: 0 }),
            r.model().crops =~= seq![image.pixels@],
    {
        let seed = CompressedImage::new(&image, 0);
        let tmp = Image { image: image.duplicate(), crop_index: 0 };
        let fin = Image { image: image.duplicate(), crop_index: 0 };
        let mut images: Vec<CompressedImage> = Vec::new();
        images.push(seed);
        let mut crop_images: Vec<Canvas> = Vec::new();
        crop_images.push(image);
        ImageStack {
            images,
            redo_images: Vec::new(),
            crop_images,
            tmp_image: tmp,
            final_image: fin,
        }
    }

    pub fn get_images_len(&self) -> (r: usize)
        ensures
            r == self.model().undo.len(),
    {
        self.images.len()
    }

    pub fn get_redo_images_len(&self) -> (r: usize)
        ensures
            r == self.model().redo.len(),
    {
        self.redo_images.len()
    }

    pub fn get_crop_images_len(&self) -> (r: usize)
        ensures
            r == self.model().crops.len(),
    {
        self.crop_images.len()
    }

    /// A copy of the lineage generation `index`: the pristine pixels
    /// underneath images tagged with that generation.
    pub fn get_crop_image(&self, index: usize) -> (r: Canvas)
        requires
            self.wf(),
            index < self.model().crops.len(),
        ensures
            r.wf(),
            r.pixels@ == self.model().crops[index as int],
            r.width == self.crop_images@[index as int].width,
            r.height == self.crop_images@[index as int].height,
    {
        self.crop_images[index].duplicate()
    }

    /// Append a new lineage generation; called exactly when a crop
    /// commits.
    pub fn push_crop_image(&mut self, image: Canvas)
        requires
            old(self).wf(),
            image.wf(),
        ensures
            final(self).wf(),
            final(self).model().crops =~= old(self).model().crops.push(image.pixels@),
            final(self).model().undo == old(self).model().undo,
            final(self).model().redo == old(self).model().redo,
            final(self).model().tmp == old(self).model().tmp,
            final(self).model().fin == old(self).model().fin,
            final(self).crop_images@ == old(self).crop_images@.push(image),
    {
        self.crop_images.push(image);
        proof {
            let o = *old(self);
            let n = *self;
            assert forall|i: int| 0 <= i < n.images@.len() implies n.entry_ok(
                #[trigger] n.images@[i],
            ) by {
                assert(o.entry_ok(o.images@[i]));
            }
            assert forall|i: int| 0 <= i < n.redo_images@.len() implies n.entry_ok(
                #[trigger] n.redo_images@[i],
            ) by {
                assert(o.entry_ok(o.redo_images@[i]));
            }
            assert(n.model().undo =~= o.model().undo);
            assert(n.model().redo =~= o.model().redo);
        }
    }
    /// Commit a snapshot: compress it and push it onto the undo stack.
    /// This is the one committing path, so it also clears the redo stack:
    /// a fresh edit invalidates the chain of undone states.
    pub fn stack_image(&mut self, image: Image)
        requires
            old(self).wf(),
            old(self).image_ok(image),
        ensures
            final(self).wf(),
            final(self).model().undo =~= old(self).model().undo.push(snap_of_image(image)),
            final(self).model().redo =~= Seq::<SnapModel>::empty(),
            final(self).model().tmp == old(self).model().tmp,
            final(self).model().fin == old(self).model().fin,
            final(self).model().crops == old(self).model().crops,
            final(self).crop_images@ == old(self).crop_images@,
    {
        let entry = CompressedImage::new(&image.image, image.crop_index);
        self.images.push(entry);
        self.redo_images = Vec::new();
        proof {
            let o = *old(self);
            let n = *self;
            assert forall|i: int| 0 <= i < n.images@.len() implies n.entry_ok(
                #[trigger] n.images@[i],
            ) by {
                if i < o.images@.len() {
                    assert(o.entry_ok(o.images@[i]));
                }
            }
            assert(n.model().undo =~= o.model().undo.push(snap_of_image(image)));
            assert(n.model().crops =~= o.model().crops);
        }
    }

    /// Push an undone snapshot onto the redo stack.
    pub fn push_redo_image(&mut self, image: Image)
        requires
            old(self).wf(),
            old(self).image_ok(image),
        ensures
            final(self).wf(),
            final(self).model().redo =~= old(self).model().redo.push(snap_of_image(image)),
            final(self).model().undo == old(self).model().undo,
            final(self).model().tmp == old(self).model().tmp,
            final(self).model().fin == old(self).model().fin,
            final(self).model().crops == old(self).model().crops,
            final(self).crop_images@ == old(self).crop_images@,
    {
        let entry = CompressedImage::new(&image.image, image.crop_index);
        self.redo_images.push(entry);
        proof {
            let o = *old(self);
            let n = *self;
            assert forall|i: int| 0 <= i < n.redo_images@.len() implies n.entry_ok(
                #[trigger] n.redo_images@[i],
            ) by {
                if i < o.redo_images@.len() {
                    assert(o.entry_ok(o.redo_images@[i]));
                }
            }
            assert(n.model().redo =~= o.model().redo.push(snap_of_image(image)));
            assert(n.model().crops =~= o.model().crops);
        }
    }

    /// Pop the most recently undone snapshot, decompressed; `None`
    /// exactly when the redo stack is empty.
    pub fn pop_redo_image(&mut self) -> (r: Option<Image>)
        requires
            old(self).wf(),
        ensures
            final(self).wf(),
            r is Some <==> old(self).model().redo.len() > 0,
            r matches Some(im) ==> {
                &&& final(self).image_ok(im)
                &&& snap_of_image(im) == old(self).model().redo.last()
                &&& final(self).model().redo =~= old(self).model().redo.drop_last()
            },
            r is None ==> final(self).model() == old(self).model(),
            final(self).model().undo == old(self).model().undo,
            final(self).model().tmp == old(self).model().tmp,
            final(self).model().fin == old(self).model().fin,
            final(self).model().crops == old(self).model().crops,
            final(self).crop_images@ == old(self).crop_images@,
    {
        let popped = self.redo_images.pop();
        match popped {
            None => None,
            Some(entry) => {
                let canvas = entry.get_decompressed_image();
                let im = Image { image: canvas, crop_index: entry.crop_index };
                proof {
                    let o = *old(self);
                    assert(o.entry_ok(o.redo_images@.last()));
                    assert(self.model().redo =~= o.model().redo.drop_last());
                    assert(self.model().undo =~= o.model().undo);
                    assert(self.model().crops =~= o.model().crops);
                }
                Some(im)
            },
        }
    }

    /// Pop the most recent undo entry, decompressed; falls back to a copy
    /// of the committed image when the undo stack is empty.
    pub fn pop_last_image(&mut self) -> (r: Image)
        requires
            old(self).wf(),
        ensures
            final(self).wf(),
            final(self).image_ok(r),
            old(self).model().undo.len() > 0 ==> {
                &&& snap_of_image(r) == old(self).model().undo.last()
                &&& final(self).model().undo =~= old(self).model().undo.drop_last()
            },
            old(self).model().undo.len() == 0 ==> {
                &&& snap_of_image(r) == old(self).model().fin
                &&& final(self).model() == old(self).model()
            },
            final(self).model().redo == old(self).model().redo,
            final(self).model().tmp == old(self).model().tmp,
            final(self).model().fin == old(self).model().fin,
            final(self).model().crops == old(self).model().crops,
            final(self).crop_images@ == old(self).crop_images@,
    {
        let popped = self.images.pop();
        match popped {
            None => self.final_image.duplicate(),
            Some(entry) => {
                let canvas = entry.get_decompressed_image();
                let im = Image { image: canvas, crop_index: entry.crop_index };
                proof {
                    let o = *old(self);
                    assert(o.entry_ok(o.images@.last()));
                    assert(self.model().undo =~= o.model().undo.drop_last());
                    assert(self.model().redo =~= o.model().redo);
                    assert(self.model().crops =~= o.model().crops);
                }
                im
            },
        }
    }

    /// The most recent undo entry, decompressed, without removing it;
    /// falls back to a copy of the committed image when the stack is
    /// empty.
    pub fn get_last_image(&self) -> (r: Image)
        requires
            self.wf(),
        ensures
            self.image_ok(r),
            self.model().undo.len() > 0 ==> snap_of_image(r) == self.model().undo.last(),
            self.model().undo.len() == 0 ==> snap_of_image(r) == self.model().fin,
    {
        let n = self.images.len();
        if n == 0 {
            self.final_image.duplicate()
        } else {
            let entry = &self.images[n - 1];
            proof {
                assert(self.entry_ok(self.images@[n - 1]));
            }
            let canvas = entry.get_decompressed_image();
            Image { image: canvas, crop_index: entry.crop_index }
        }
    }

    /// The oldest undo entry, decompressed: the state the session began
    /// from. Falls back to a copy of the committed image when the stack
    /// is empty.
    pub fn get_first_image(&self) -> (r: Image)
        requires
            self.wf(),
        ensures
            self.image_ok(r),
            self.model().undo.len() > 0 ==> snap_of_image(r) == self.model().undo[0],
            self.model().undo.len() == 0 ==> snap_of_image(r) == self.model().fin,
    {
        if self.images.len() == 0 {
            self.final_image.duplicate()
        } else {
            let entry = &self.images[0];
            proof {
                assert(self.entry_ok(self.images@[0]));
            }
            let canvas = entry.get_decompressed_image();
            Image { image: canvas, crop_index: entry.crop_index }
        }
    }

    /// Borrow the most recent undo entry in compressed form.
    pub fn get_last_image_as_ref(&self) -> (r: &CompressedImage)
        requires
            self.wf(),
            self.model().undo.len() > 0,
        ensures
            self.entry_ok(*r),
            snap_of_entry(*r) == self.model().undo.last(),
    {
        let n = self.images.len();
        proof {
            assert(self.entry_ok(self.images@[n - 1]));
        }
        &self.images[n - 1]
    }

    /// A copy of the live image shown while editing.
    pub fn get_tmp_image(&self) -> (r: Image)
        requires
            self.wf(),
        ensures
            self.image_ok(r),
            snap_of_image(r) == self.model().tmp,
    {
        self.tmp_image.duplicate()
    }

    /// Replace the live image shown while editing.
    pub fn set_tmp_image(&mut self, image: Image)
        requires
            old(self).wf(),
            old(self).image_ok(image),
        ensures
            final(self).wf(),
            final(self).model().tmp == snap_of_image(image),
            final(self).model().undo == old(self).model().undo,
            final(self).model().redo == old(self).model().redo,
            final(self).model().fin == old(self).model().fin,
            final(self).model().crops == old(self).model().crops,
            final(self).crop_images@ == old(self).crop_images@,
    {
        self.tmp_image = image;
    }

    /// Undo one committed step: the most recent snapshot moves onto the
    /// redo stack and the live image becomes the one before it. A no-op
    /// when only the seed entry is left, so the session never loses its
    /// starting state.
    pub fn undo(&mut self)
        requires
            old(self).wf(),
        ensures
            final(self).wf(),
            old(self).model().undo.len() > 1 ==> final(self).model() == spec_undo(
                old(self).model(),
            ),
            old(self).model().undo.len() <= 1 ==> final(self).model() == old(self).model(),
            final(self).crop_images@ == old(self).crop_images@,
    {
        if self.images.len() <= 1 {
            return ;
        }
        let img = self.pop_last_image();
        self.push_redo_image(img);
        let img2 = self.get_last_image();
        self.set_tmp_image(img2);
    }

    /// Redo one undone step: the most recently undone snapshot moves back
    /// onto the undo stack and becomes the live image. A no-op when
    /// nothing has been undone.
    pub fn redo(&mut self)
        requires
            old(self).wf(),
        ensures
            final(self).wf(),
            old(self).model().redo.len() > 0 ==> final(self).model() == spec_redo(
                old(self).model(),
            ),
            old(self).model().redo.len() == 0 ==> final(self).model() == old(self).model(),
            final(self).crop_images@ == old(self).crop_images@,
    {
        let popped = self.pop_redo_image();
        match popped {
            None => (),
            Some(img) => {
                let entry = CompressedImage::new(&img.image, img.crop_index);
                self.images.push(entry);
                proof {
                    let o = *old(self);
                    let n = *self;
                    assert forall|i: int| 0 <= i < n.images@.len() implies n.entry_ok(
                        #[trigger] n.images@[i],
                    ) by {
                        if i < o.images@.len() {
                            assert(o.entry_ok(o.images@[i]));
                        }
                    }
                    assert(n.model().undo =~= o.model().undo.push(o.model().redo.last()));
                }
                self.set_tmp_image(img);
            },
        }
    }

    /// End the edit session keeping all edits: the most recent snapshot
    /// becomes the committed image and its own new baseline. Its lineage
    /// tag is reset, the crop lineage is reseeded with it, and both
    /// stacks are cleared down to it as the sole seed entry.
    pub fn save_changes(&mut self)
        requires
            old(self).wf(),
        ensures
            final(self).wf(),
            ({
                let m = old(self).model();
                let s0 = if m.undo.len() > 0 {
                    m.undo.last()
                } else {
                    m.fin
                };
                let s = (SnapModel { crop_index: 0, ..s0 });
                &&& final(self).model().undo =~= seq![s]
                &&& final(self).model().redo =~= Seq::<SnapModel>::empty()
                &&& final(self).model().tmp == s
                &&& final(self).model().fin == s
                &&& final(self).model().crops =~= seq![s.pixels]
            }),
    {
        let mut img = self.get_last_image();
        img.crop_index = 0;
        let entry = CompressedImage::new(&img.image, 0);
        let mut images: Vec<CompressedImage> = Vec::new();
        images.push(entry);
        let mut crops: Vec<Canvas> = Vec::new();
        crops.push(img.get_image());
        self.images = images;
        self.redo_images = Vec::new();
        self.crop_images = crops;
        self.tmp_image = img.duplicate();
        self.final_image = img;
    }

    /// End the edit session discarding all edits: rewind to the oldest
    /// snapshot, the state the session began from, and reseed exactly as
    /// `save_changes` does.
    pub fn undo_changes(&mut self)
        requires
            old(self).wf(),
        ensures
            final(self).wf(),
            ({
                let m = old(self).model();
                let s0 = if m.undo.len() > 0 {
                    m.undo[0]
                } else {
                    m.fin
                };
                let s = (SnapModel { crop_index: 0, ..s0 });
                &&& final(self).model().undo =~= seq![s]
                &&& final(self).model().redo =~= Seq::<SnapModel>::empty()
                &&& final(self).model().tmp == s
                &&& final(self).model().fin == s
                &&& final(self).model().crops =~= seq![s.pixels]
            }),
    {
        let mut img = self.get_first_image();
        img.crop_index = 0;
        let entry = CompressedImage::new(&img.image, 0);
        let mut images: Vec<CompressedImage> = Vec::new();
        images.push(entry);
        let mut crops: Vec<Canvas> = Vec::new();
        crops.push(img.get_image());
        self.images = images;
        self.redo_images = Vec::new();
        self.crop_images = crops;
        self.tmp_image = img.duplicate();
        self.final_image = img;
    }

    /// Rewind to the oldest snapshot, discarding the session's edits:
    /// the same reseed as `undo_changes`.
    pub fn restore(&mut self)
        requires
            old(self).wf(),
        ensures
            final(self).wf(),
            ({
                let m = old(self).model();
                let s0 = if m.undo.len() > 0 {
                    m.undo[0]
                } else {
                    m.fin
                };
                let s = (SnapModel { crop_index: 0, ..s0 });
                &&& final(self).model().undo =~= seq![s]
                &&& final(self).model().redo =~= Seq::<SnapModel>::empty()
                &&& final(self).model().tmp == s
                &&& final(self).model().fin == s
                &&& final(self).model().crops =~= seq![s.pixels]
            }),
    {
        self.undo_changes()
    }

    /// Commit a crop of the clamped rectangle at (x, y) of size w x h.
    /// The visible image and the lineage generation backing it are both
    /// cropped by the same rectangle; the cropped base becomes a new
    /// lineage generation, and the cropped image, tagged with that
    /// generation, is committed and immediately becomes the live and the
    /// committed image.
    pub fn commit_crop(&mut self, x: u32, y: u32, w: u32, h: u32)
        requires
            old(self).wf(),
        ensures
            final(self).wf(),
            commit_crop_post(*old(self), *final(self), x, y, w, h),
    {
        let cur = self.get_last_image();
        let new_screen = cur.image.crop(x, y, w, h);
        let base_gen = self.get_crop_image(cur.crop_index);
        let new_base = base_gen.crop(x, y, w, h);
        let idx = self.crop_images.len();
        let img = Image { image: new_screen, crop_index: idx };
        self.push_crop_image(new_base);
        self.stack_image(img.duplicate());
        self.set_tmp_image(img.duplicate());
        self.final_image = img;
    }

    /// A copy of the committed image: what is shown and exported outside
    /// edit mode.
    pub fn get_final_image(&self) -> (r: Image)
        requires
            self.wf(),
        ensures
            self.image_ok(r),
            snap_of_image(r) == self.model().fin,
    {
        self.final_image.duplicate()
    }
}

} // verus!
