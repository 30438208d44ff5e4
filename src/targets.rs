//! The swapchain and the framebuffers drawn into, one per swapchain image.
//!
//! `SwapchainTargets` keeps its framebuffers in step with the swapchain's
//! images: it is built with one framebuffer per image, and a recreation either
//! replaces swapchain, images and framebuffers together, on the same render
//! pass, or leaves the targets as they were.
use std::sync::Arc;
use vstd::prelude::*;
use vulkano::image::view::ImageView;
use vulkano::image::Image;
use vulkano::render_pass::{Framebuffer, FramebufferCreateInfo, RenderPass};
use vulkano::swapchain::{Swapchain, SwapchainCreateInfo};

verus! {

#[verifier::external_type_specification]
#[verifier::external_body]
pub struct ExSwapchain(Swapchain);

#[verifier::external_type_specification]
#[verifier::external_body]
pub struct ExImage(Image);

#[verifier::external_type_specification]
#[verifier::external_body]
pub struct ExImageView(ImageView);

#[verifier::external_type_specification]
#[verifier::external_body]
pub struct ExRenderPass(RenderPass);

#[verifier::external_type_specification]
#[verifier::external_body]
pub struct ExFramebuffer(Framebuffer);

/// Failures of the GPU side that end the call that met them.
#[derive(PartialEq, Eq, Structural, Clone, Copy, Debug)]
pub enum RenderError {
    ImageView,
    Framebuffer,
    Swapchain,
    BufferAllocation,
    CommandBuffer,
}

/// Relies on `ImageView::new_default`: a view of the whole image, or nothing
/// when the device refuses one.
#[verifier::external_body]
fn view_of(image: &Arc<Image>) -> (r: Option<Arc<ImageView>>) {
    ImageView::new_default(image.clone()).ok()
}

/// Relies on `Framebuffer::new`, with `view` as the single attachment and the
/// extent taken from it.
#[verifier::external_body]
fn framebuffer_of(render_pass: &Arc<RenderPass>, view: Arc<ImageView>) -> (r: Option<
    Arc<Framebuffer>,
>) {
    let info = FramebufferCreateInfo { attachments: vec![view], ..Default::default() };
    Framebuffer::new(render_pass.clone(), info).ok()
}

/// Relies on `Swapchain::recreate`, keeping every setting of `swapchain` but
/// the image extent: the new swapchain and all of its images.
#[verifier::external_body]
fn recreate_with_extent(swapchain: &Arc<Swapchain>, extent: [u32; 2]) -> (r: Option<
    (Arc<Swapchain>, Vec<Arc<Image>>),
>) {
    let info = SwapchainCreateInfo { image_extent: extent, ..swapchain.create_info() };
    swapchain.recreate(info).ok()
}

/// One framebuffer for each of `images`, in the same order.
pub fn create_framebuffers(render_pass: &Arc<RenderPass>, images: &Vec<Arc<Image>>) -> (r: Result<
    Vec<Arc<Framebuffer>>,
    RenderError,
>)
    ensures
        r matches Ok(f) ==> f@.len() == images@.len(),
        images@.len() == 0 ==> (r matches Ok(f) && f@.len() == 0),
{
    let mut out: Vec<Arc<Framebuffer>> = Vec::new();
    let mut i: usize = 0;
    while i < images.len()
        invariant
            i <= images.len(),
            out@.len() == i,
        decreases images.len() - i,
    {
        let view = match view_of(&images[i]) {
            Some(v) => v,
            None => {
                return Err(RenderError::ImageView);
            },
        };
        let fb = match framebuffer_of(render_pass, view) {
            Some(f) => f,
            None => {
                return Err(RenderError::Framebuffer);
            },
        };
        out.push(fb);
        i = i + 1;
    }
    Ok(out)
}

pub struct SwapchainTargets {
    swapchain: Arc<Swapchain>,
    render_pass: Arc<RenderPass>,
    images: Vec<Arc<Image>>,
    framebuffers: Vec<Arc<Framebuffer>>,
}

impl SwapchainTargets {
    #[verifier::type_invariant]
    spec fn inv(&self) -> bool {
        self.framebuffers@.len() == self.images@.len()
    }

    /// The swapchain presented to.
    pub closed spec fn swapchain_spec(&self) -> Arc<Swapchain> {
        self.swapchain
    }

    /// The render pass the framebuffers are built on.
    pub closed spec fn render_pass_spec(&self) -> Arc<RenderPass> {
        self.render_pass
    }

    /// The swapchain's images, in the swapchain's order.
    pub closed spec fn images_spec(&self) -> Seq<Arc<Image>> {
        self.images@
    }

    /// The framebuffers, the one of image `i` at position `i`.
    pub closed spec fn framebuffers_spec(&self) -> Seq<Arc<Framebuffer>> {
        self.framebuffers@
    }

    /// How many images the swapchain has.
    pub open spec fn image_count_spec(&self) -> nat {
        self.images_spec().len()
    }

    /// One framebuffer per swapchain image.
    pub open spec fn wf(&self) -> bool {
        self.framebuffers_spec().len() == self.image_count_spec()
    }

    /// Targets for `swapchain`, whose images are `images`, drawn through
    /// `render_pass`.
    pub fn new(swapchain: Arc<Swapchain>, render_pass: Arc<RenderPass>, images: Vec<Arc<Image>>) -> (r:
        Result<SwapchainTargets, RenderError>)
        ensures
            r matches Ok(t) ==> t.wf() && t.swapchain_spec() == swapchain && t.render_pass_spec()
                == render_pass && t.images_spec() == images@,
            images@.len() == 0 ==> r is Ok,
    {
        let framebuffers = create_framebuffers(&render_pass, &images)?;
        Ok(SwapchainTargets { swapchain, render_pass, images, framebuffers })
    }

    /// The number of swapchain images, which is also the number of
    /// framebuffers.
    pub fn image_count(&self) -> (r: usize)
        ensures
            r == self.image_count_spec(),
            self.wf(),
    {
        proof {
            use_type_invariant(self);
        }
        self.images.len()
    }

    /// The framebuffer of image `i`.
    pub fn framebuffer(&self, i: usize) -> (r: &Arc<Framebuffer>)
        requires
            i < self.image_count_spec(),
        ensures
            *r == self.framebuffers_spec()[i as int],
    {
        proof {
            use_type_invariant(self);
        }
        &self.framebuffers[i]
    }

    pub fn swapchain(&self) -> (r: &Arc<Swapchain>)
        ensures
            *r == self.swapchain_spec(),
    {
        &self.swapchain
    }

    /// Takes `swapchain`, with its images `images`, in place of the current
    /// swapchain and builds one framebuffer per new image on the same render
    /// pass. On failure the targets are left as they were.
    pub fn replace_swapchain(&mut self, swapchain: Arc<Swapchain>, images: Vec<Arc<Image>>) -> (r:
        Result<(), RenderError>)
        ensures
            final(self).wf(),
            final(self).render_pass_spec() == old(self).render_pass_spec(),
            r is Ok ==> final(self).swapchain_spec() == swapchain && final(self).images_spec()
                == images@,
            r is Err ==> *final(self) == *old(self),
            images@.len() == 0 ==> r is Ok,
    {
        proof {
            use_type_invariant(&*self);
        }
        let framebuffers = create_framebuffers(&self.render_pass, &images)?;
        let render_pass = self.render_pass.clone();
        *self = SwapchainTargets { swapchain, render_pass, images, framebuffers };
        Ok(())
    }

    /// Recreates the swapchain with a new image extent and takes it, with its
    /// images, through `replace_swapchain`. On failure the targets are left as
    /// they were; vulkano retires the old swapchain once recreation from it
    /// has been attempted, so after a failure further recreations from these
    /// targets are refused by vulkano as well.
    pub fn recreate(&mut self, extent: [u32; 2]) -> (r: Result<(), RenderError>)
        ensures
            final(self).wf(),
            final(self).render_pass_spec() == old(self).render_pass_spec(),
            r is Err ==> *final(self) == *old(self),
    {
        proof {
            use_type_invariant(&*self);
        }
        let (swapchain, images) = match recreate_with_extent(&self.swapchain, extent) {
            Some(p) => p,
            None => {
                return Err(RenderError::Swapchain);
            },
        };
        self.replace_swapchain(swapchain, images)
    }
}

} // verus!
