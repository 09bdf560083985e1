//! A cache of card images at the two sizes the editor shows them in, keyed by set
//! code. Reading and scaling the image files is left to the caller; this keeps the
//! cache's rules: which file holds a card's image, when an image still has to be
//! read, and which images are kept.

use crate::names::NameMap;
use vstd::prelude::*;

verus! {

/// The size, in pixels, of the small rendering of a card.
pub const DEFAULT_SMALL_SCALE: i32 = 100;

/// The size, in pixels, of the large rendering of a card.
pub const DEFAULT_LARGE_SCALE: i32 = 250;

/// The two renderings of one card image.
pub struct ImageSizes<I> {
    pub small: I,
    pub large: I,
}

/// Card images by set code, each at a small and a large size.
pub struct ImageManager<I> {
    /// The renderings held, by set code.
    pub images: NameMap<ImageSizes<I>>,
    pub small_scale: i32,
    pub large_scale: i32,
}

impl<I> ImageManager<I> {
    /// The images held, by set code.
    pub open spec fn loaded(&self) -> Map<Seq<char>, ImageSizes<I>> {
        self.images@
    }

    /// An empty cache with the default sizes.
    pub fn new() -> (r: ImageManager<I>)
        ensures
            r.loaded() == Map::<Seq<char>, ImageSizes<I>>::empty(),
            r.small_scale == DEFAULT_SMALL_SCALE,
            r.large_scale == DEFAULT_LARGE_SCALE,
    {
        ImageManager { images: NameMap::new(), small_scale: DEFAULT_SMALL_SCALE, large_scale: DEFAULT_LARGE_SCALE }
    }

    /// The file that holds the image of the card with this set code.
    pub fn image_path(set_code: &str) -> (r: String)
        ensures
            r@ == "images/"@ + set_code@ + ".png"@,
    {
        let mut path = "images/".to_owned();
        path.append(set_code);
        path.append(".png");
        path
    }

    /// Whether the image for this set code still has to be read.
    pub fn needs_image(&self, set_code: &str) -> (r: bool)
        ensures
            r == !self.loaded().dom().contains(set_code@),
    {
        !self.images.contains_key(set_code)
    }

    /// Drops the image for this set code.
    pub fn unload_image(&mut self, set_code: &str)
        ensures
            final(self).loaded() == old(self).loaded().remove(set_code@),
            final(self).small_scale == old(self).small_scale,
            final(self).large_scale == old(self).large_scale,
    {
        self.images.remove(set_code);
    }

    /// Keeps the renderings read for this set code, where none are held yet and both
    /// sizes could be read.
    pub fn load_image(&mut self, set_code: &str, small: Option<I>, large: Option<I>)
        ensures
            final(self).small_scale == old(self).small_scale,
            final(self).large_scale == old(self).large_scale,
            match (small, large) {
                (Some(s), Some(l)) => if old(self).loaded().dom().contains(set_code@) {
                    final(self).loaded() == old(self).loaded()
                } else {
                    final(self).loaded() == old(self).loaded().insert(set_code@, ImageSizes { small: s, large: l })
                },
                _ => final(self).loaded() == old(self).loaded(),
            },
    {
        if self.images.contains_key(set_code) {
            return;
        }
        match (small, large) {
            (Some(s), Some(l)) => {
                self.images.insert(set_code.to_owned(), ImageSizes { small: s, large: l });
            },
            _ => {},
        }
    }

    /// The small rendering of the image for this set code, if it is held.
    pub fn get_small_image(&self, set_code: &str) -> (r: Option<&I>)
        ensures
            match r {
                Some(img) => self.loaded().dom().contains(set_code@) && *img == self.loaded()[set_code@].small,
                None => !self.loaded().dom().contains(set_code@),
            },
    {
        match self.images.get(set_code) {
            Some(sizes) => Some(&sizes.small),
            None => None,
        }
    }

    /// The large rendering of the image for this set code, if it is held.
    pub fn get_large_image(&self, set_code: &str) -> (r: Option<&I>)
        ensures
            match r {
                Some(img) => self.loaded().dom().contains(set_code@) && *img == self.loaded()[set_code@].large,
                None => !self.loaded().dom().contains(set_code@),
            },
    {
        match self.images.get(set_code) {
            Some(sizes) => Some(&sizes.large),
            None => None,
        }
    }
}

} // verus!
