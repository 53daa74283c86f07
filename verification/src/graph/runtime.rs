//! The runtime: resolves the images of a compiled graph to physical images
//! and records the commands of a frame.

use crate::arena::{ArenaMap, Key};
use crate::graph::compiled::Graph;
use crate::graph::model::{
    barriers_to, edge_stands_for, edges_stand_for, lemma_barriers_from_deps, node_deps, targets,
    usage,
};
use crate::graph::{
    GraphImage, GraphImageInfo, GraphKey, ImageDependency, OutputImage, Resource,
};
use crate::misc::{full_color_range, image_subresource_range_full_color};
use crate::resource::image::{
    aspects_of, subresource_range_full, FormatExt, Image, ImageExtent, ImageInfo,
    ImageSubresourceRange, ImageTiling,
};
use crate::resource::transient::{TransientAction, TransientResources};
use crate::vk::{
    AccessFlags2, ImageLayout, PipelineStageFlags2, IMAGE_LAYOUT_UNDEFINED, QUEUE_FAMILY_IGNORED,
};
use vstd::prelude::*;

verus! {

/// The number of sets of transient images, one for each frame in flight.
pub const TRANSIENT_RESOURCE_INSTANCES: usize = 2;

/// A logical binding for a graph image.
#[derive(Copy, Clone, Debug, PartialEq, Eq, Structural)]
pub enum ImageBinding {
    /// Binds to a transient image managed by the runtime.
    ///
    /// The runtime asks for a physical image that fits the image
    /// parameters. The image persists between frames, and is recreated when
    /// the image parameters change.
    ///
    /// This value is the default, and is suitable for intermediate render
    /// targets whose contents do not need to be preserved between frames.
    Transient,
    /// Binds to the active swapchain image.
    Swapchain,
}

impl Default for ImageBinding {
    fn default() -> (binding: ImageBinding)
        ensures
            binding == ImageBinding::Transient,
    {
        ImageBinding::Transient
    }
}

/// A kind of graph resource that can be bound to something physical.
pub trait GraphResource: Resource {
    /// What a resource of this kind can be bound to.
    type Binding: Copy;

    /// The binding of a resource that was not bound explicitly.
    spec fn spec_default_binding() -> Self::Binding;

    fn default_binding() -> (binding: Self::Binding)
        ensures
            binding == Self::spec_default_binding(),
    ;
}

impl GraphResource for GraphImageInfo {
    type Binding = ImageBinding;

    open spec fn spec_default_binding() -> ImageBinding {
        ImageBinding::Transient
    }

    fn default_binding() -> (binding: ImageBinding) {
        ImageBinding::Transient
    }
}

/// The bindings of the resources of one kind.
pub struct Bindings<T: GraphResource> {
    bindings: ArenaMap<Key<T>, T::Binding>,
}

impl<T: GraphResource> View for Bindings<T> {
    type V = Map<nat, T::Binding>;

    /// The bindings that were set.
    closed spec fn view(&self) -> Map<nat, T::Binding> {
        self.bindings@
    }
}

/// The binding of a resource: the one that was set, else the default.
pub open spec fn binding_of<T: GraphResource>(bindings: Map<nat, T::Binding>, key: nat) -> T::Binding {
    if bindings.contains_key(key) {
        bindings[key]
    } else {
        T::spec_default_binding()
    }
}

impl<T: GraphResource> Bindings<T> {
    pub closed spec fn wf(&self) -> bool {
        self.bindings.wf()
    }

    pub fn with_capacity(cap: usize) -> (bindings: Bindings<T>)
        ensures
            bindings.wf(),
            bindings@ == Map::<nat, T::Binding>::empty(),
    {
        Bindings { bindings: ArenaMap::with_capacity(cap) }
    }

    pub fn get(&self, key: Key<T>) -> (binding: T::Binding)
        ensures
            binding == binding_of::<T>(self@, key@),
    {
        match self.bindings.get(key) {
            Some(binding) => *binding,
            None => T::default_binding(),
        }
    }

    pub fn set(&mut self, key: Key<T>, binding: T::Binding)
        requires
            old(self).wf(),
            key@ < u32::MAX,
        ensures
            final(self).wf(),
            final(self)@ == old(self)@.insert(key@, binding),
    {
        let _ = self.bindings.insert(key, binding);
    }
}

/// The bindings of the images of a graph.
pub type ImageBindings = Bindings<GraphImageInfo>;

/// A barrier on a physical image, as the GPU API takes it.
#[derive(Copy, Clone, Debug, PartialEq, Eq, Structural)]
pub struct ImageBarrier {
    pub image: u64,
    pub src_stage_mask: PipelineStageFlags2,
    pub src_access_mask: AccessFlags2,
    pub dst_stage_mask: PipelineStageFlags2,
    pub dst_access_mask: AccessFlags2,
    pub old_layout: ImageLayout,
    pub new_layout: ImageLayout,
    pub src_queue_family_index: u32,
    pub dst_queue_family_index: u32,
    pub subresource_range: ImageSubresourceRange,
}

/// One command of the stream that the runtime records.
#[derive(Clone, Debug, PartialEq, Eq)]
pub enum Command {
    /// One pipeline barrier with these image barriers.
    PipelineBarrier(Vec<ImageBarrier>),
    /// Opens a debug label span for the node.
    BeginDebugLabel(GraphKey),
    /// Lets the node record its own commands.
    ExecuteNode(GraphKey),
    /// Closes the debug label span that is open.
    EndDebugLabel,
}

/// What resolves a graph image to a physical image: the bindings, the
/// transient images of the frame, and the swapchain image of the frame.
pub struct Resolver {
    pub bindings: Map<nat, ImageBinding>,
    pub bank: Map<nat, Image>,
    pub target: Image,
}

impl Resolver {
    /// What the image is bound to.
    pub open spec fn binding(self, image: nat) -> ImageBinding {
        binding_of::<GraphImageInfo>(self.bindings, image)
    }

    /// The physical image of a graph image: the swapchain image of the
    /// frame, or the transient image if there is one.
    pub open spec fn image(self, image: nat) -> Option<Image> {
        match self.binding(image) {
            ImageBinding::Swapchain => Some(self.target),
            ImageBinding::Transient => if self.bank.contains_key(image) {
                Some(self.bank[image])
            } else {
                None
            },
        }
    }

    /// The barrier that takes the image of an output that supersedes
    /// nothing into the layout that the output needs. The image starts the
    /// frame in an undefined layout; both sides of the barrier name the
    /// stage and access of the output.
    pub open spec fn initial_barrier(self, output: OutputImage) -> ImageBarrier {
        let image = self.image(output.key@)->0;
        ImageBarrier {
            image: image.handle,
            src_stage_mask: output.access.stage_mask,
            src_access_mask: output.access.access_mask,
            dst_stage_mask: output.access.stage_mask,
            dst_access_mask: output.access.access_mask,
            old_layout: IMAGE_LAYOUT_UNDEFINED,
            new_layout: output.access.layout,
            src_queue_family_index: QUEUE_FAMILY_IGNORED,
            dst_queue_family_index: QUEUE_FAMILY_IGNORED,
            subresource_range: match self.binding(output.key@) {
                ImageBinding::Transient => (ImageSubresourceRange {
                    aspect_mask: aspects_of(image.info.format),
                    base_mip_level: 0,
                    level_count: 1,
                    base_array_layer: 0,
                    layer_count: 1,
                }),
                ImageBinding::Swapchain => full_color_range(),
            },
        }
    }

    /// The barrier of a dependency on the physical image: the stage masks,
    /// access masks and layouts are those of the dependency.
    pub open spec fn dependency_barrier(self, dep: ImageDependency) -> ImageBarrier {
        image_barrier(dep, self.image(dep.image@)->0.handle, full_color_range())
    }

    /// The initial barriers of the first `upto` outputs.
    pub open spec fn initial_barriers(self, outputs: Seq<OutputImage>, upto: nat) -> Seq<ImageBarrier>
        decreases upto,
    {
        if upto == 0 {
            Seq::empty()
        } else {
            let before = self.initial_barriers(outputs, (upto - 1) as nat);
            if outputs[upto - 1].consumed is None {
                before.push(self.initial_barrier(outputs[upto - 1]))
            } else {
                before
            }
        }
    }

    /// The barriers of the first `upto` of the dependencies `deps`.
    pub open spec fn edge_barriers(self, deps: Seq<ImageDependency>, upto: nat) -> Seq<ImageBarrier>
        decreases upto,
    {
        if upto == 0 {
            Seq::empty()
        } else {
            self.edge_barriers(deps, (upto - 1) as nat).push(self.dependency_barrier(deps[upto - 1]))
        }
    }

    /// The barriers of the first `upto` of the edges `out` of the
    /// dependency graph of `graph`.
    pub open spec fn dependency_barriers(self, graph: Graph, out: Seq<nat>, upto: nat) -> Seq<
        ImageBarrier,
    >
        decreases upto,
    {
        if upto == 0 {
            Seq::empty()
        } else {
            let images = graph.dep_graph()@.weights[out[upto - 1] as int].images@;
            self.dependency_barriers(graph, out, (upto - 1) as nat) + self.edge_barriers(
                images,
                images.len(),
            )
        }
    }

    /// The barriers before node `node` of the dependency graph: the initial
    /// barriers of its outputs, then the barriers of its dependencies.
    pub open spec fn node_barriers(self, graph: Graph, node: nat) -> Seq<ImageBarrier> {
        let slots = graph.nodes()[graph.live()[node as int] as int];
        let out = graph.dep_graph().out_edges(node);
        self.initial_barriers(slots.outputs, slots.outputs.len()) + self.dependency_barriers(
            graph,
            out,
            out.len(),
        )
    }
}

/// The barrier of the dependency `dep` on the physical image `image`: the
/// stage masks, access masks and layouts of the dependency, without a
/// transfer between queue families.
pub open spec fn image_barrier(dep: ImageDependency, image: u64, range: ImageSubresourceRange) -> ImageBarrier {
    ImageBarrier {
        image,
        src_stage_mask: dep.src_stage_mask,
        src_access_mask: dep.src_access_mask,
        dst_stage_mask: dep.dst_stage_mask,
        dst_access_mask: dep.dst_access_mask,
        old_layout: dep.old_layout,
        new_layout: dep.new_layout,
        src_queue_family_index: QUEUE_FAMILY_IGNORED,
        dst_queue_family_index: QUEUE_FAMILY_IGNORED,
        subresource_range: range,
    }
}

impl Graph {
    /// The barrier of the dependency `dep` on the physical image `img`.
    pub fn image_barrier(&self, dep: &ImageDependency, img: u64, range: ImageSubresourceRange) -> (barrier:
        ImageBarrier)
        ensures
            barrier == image_barrier(*dep, img, range),
    {
        ImageBarrier {
            image: img,
            src_stage_mask: dep.src_stage_mask,
            src_access_mask: dep.src_access_mask,
            dst_stage_mask: dep.dst_stage_mask,
            dst_access_mask: dep.dst_access_mask,
            old_layout: dep.old_layout,
            new_layout: dep.new_layout,
            src_queue_family_index: QUEUE_FAMILY_IGNORED,
            dst_queue_family_index: QUEUE_FAMILY_IGNORED,
            subresource_range: range,
        }
    }
}

/// The descriptor that the physical image of a graph image needs: the
/// format and size of the graph image, optimal tiling, and the usage flags
/// that the slots of the graph contribute.
pub open spec fn wanted_info(graph: Graph, image: nat) -> ImageInfo {
    let info = graph.editor().images().infos()[image as int];
    ImageInfo {
        format: info.format,
        extent: ImageExtent::D2(info.extent),
        tiling: ImageTiling::Optimal,
        usage: usage(graph.nodes(), graph.nodes().len(), image),
    }
}

/// What the runtime asks for one transient image.
#[derive(Copy, Clone, Debug, PartialEq, Eq)]
pub struct ResolveRequest {
    /// The graph image.
    pub image: GraphImage,
    /// The descriptor that its physical image needs.
    pub info: ImageInfo,
    /// What has to be done.
    pub action: TransientAction,
}

/// The view into the state of a run that a node gets: the bindings, the
/// transient images and the swapchain image of the frame.
#[derive(Copy, Clone)]
pub struct RunContext<'run> {
    image_bindings: &'run ImageBindings,
    transient: &'run TransientResources,
    target: &'run Image,
}

impl<'run> RunContext<'run> {
    /// What resolves the images in this run.
    pub closed spec fn resolver(&self) -> Resolver {
        Resolver { bindings: self.image_bindings@, bank: self.transient@, target: *self.target }
    }

    pub fn new(
        image_bindings: &'run ImageBindings,
        transient: &'run TransientResources,
        target: &'run Image,
    ) -> (cx: RunContext<'run>)
        ensures
            cx.resolver() == (Resolver {
                bindings: image_bindings@,
                bank: transient@,
                target: *target,
            }),
    {
        RunContext { image_bindings, transient, target }
    }

    /// The physical image of `image`.
    pub fn resolve(&self, image: GraphImage) -> (found: Option<&'run Image>)
        ensures
            found == match self.resolver().image(image@) {
                Some(physical) => Some(&physical),
                None => None,
            },
    {
        match self.image_bindings.get(image) {
            ImageBinding::Transient => self.transient.get(image),
            ImageBinding::Swapchain => Some(self.target),
        }
    }

    /// The handle of the physical image of `image`.
    pub fn image(&self, image: GraphImage) -> (handle: Option<u64>)
        ensures
            handle == match self.resolver().image(image@) {
                Some(physical) => Some(physical.handle),
                None => None,
            },
    {
        match self.resolve(image) {
            Some(physical) => Some(physical.handle),
            None => None,
        }
    }

    /// The handle of the view of the whole physical image of `image`.
    pub fn default_image_view(&self, image: GraphImage) -> (view: Option<u64>)
        ensures
            view == match self.resolver().image(image@) {
                Some(physical) => Some(physical.default_view),
                None => None,
            },
    {
        match self.resolve(image) {
            Some(physical) => Some(physical.default_view),
            None => None,
        }
    }

    /// The descriptor of the physical image of `image`.
    pub fn image_info(&self, image: GraphImage) -> (info: Option<ImageInfo>)
        ensures
            info == match self.resolver().image(image@) {
                Some(physical) => Some(physical.info),
                None => None,
            },
    {
        match self.resolve(image) {
            Some(physical) => Some(physical.info),
            None => None,
        }
    }
}

/// What has to be done for `image` in the set `bank` so that it has a
/// physical image with the descriptor `info`.
pub open spec fn action_for(bank: Map<nat, Image>, image: nat, info: ImageInfo) -> TransientAction {
    if !bank.contains_key(image) {
        TransientAction::Create
    } else if bank[image].info != info {
        TransientAction::Recreate
    } else {
        TransientAction::Keep
    }
}

/// The requests for the first `upto` images of the graph: one for each
/// image that is bound to a transient image, in the order of the keys.
pub open spec fn requests(
    graph: Graph,
    bindings: Map<nat, ImageBinding>,
    bank: Map<nat, Image>,
    upto: nat,
) -> Seq<ResolveRequest>
    decreases upto,
{
    if upto == 0 {
        Seq::empty()
    } else {
        let image = (upto - 1) as nat;
        let before = requests(graph, bindings, bank, image);
        if binding_of::<GraphImageInfo>(bindings, image) == ImageBinding::Transient {
            before.push(
                ResolveRequest {
                    image: Key::at(image),
                    info: wanted_info(graph, image),
                    action: action_for(bank, image, wanted_info(graph, image)),
                },
            )
        } else {
            before
        }
    }
}

/// Every image that is bound to a transient image has one in `bank`, with
/// the descriptor that it needs.
pub open spec fn resolved(graph: Graph, bindings: Map<nat, ImageBinding>, bank: Map<nat, Image>) -> bool {
    forall|image: nat|
        image < graph.editor().images().infos().len() && #[trigger] binding_of::<GraphImageInfo>(
            bindings,
            image,
        ) == ImageBinding::Transient ==> bank.contains_key(image) && bank[image].info == wanted_info(
            graph,
            image,
        )
}

/// Place `p` of the order is recorded in `commands`: one pipeline barrier
/// with the barriers of the node, then the node's debug label span with the
/// node's own commands inside.
pub open spec fn step_recorded(commands: Seq<Command>, resolver: Resolver, graph: Graph, p: int) -> bool {
    let node = graph.order()[p];
    let key = graph.live()[node as int];
    &&& commands[4 * p] matches Command::PipelineBarrier(barriers) && barriers@
        == resolver.node_barriers(graph, node)
    &&& commands[4 * p + 1] matches Command::BeginDebugLabel(k) && k@ == key
    &&& commands[4 * p + 2] matches Command::ExecuteNode(k) && k@ == key
    &&& commands[4 * p + 3] is EndDebugLabel
}

/// `commands` is the record of one frame of `graph`: the steps of the
/// nodes, in the order of the graph.
pub open spec fn records(commands: Seq<Command>, resolver: Resolver, graph: Graph) -> bool {
    &&& commands.len() == 4 * graph.order().len()
    &&& forall|p: int|
        0 <= p < graph.order().len() ==> #[trigger] step_recorded(commands, resolver, graph, p)
}

/// Reusable graph runner.
pub struct Runtime {
    graph: Graph,
    frame_counter: u64,
    // User-specified bindings to graph images.
    //
    // The default is ImageBinding::Transient, i.e., the runtime asks for an image to use.
    image_bindings: ImageBindings,
    // Swappable transient resource storage.
    transient: Vec<TransientResources>,
}

impl Runtime {
    /// The graph that the runtime runs.
    pub closed spec fn graph(&self) -> Graph {
        self.graph
    }

    /// The number of frames recorded so far, modulo 2^64.
    pub closed spec fn frame_counter(&self) -> u64 {
        self.frame_counter
    }

    /// The bindings that were set.
    pub closed spec fn bindings(&self) -> Map<nat, ImageBinding> {
        self.image_bindings@
    }

    /// The sets of transient images.
    pub closed spec fn banks(&self) -> Seq<Map<nat, Image>> {
        Seq::new(self.transient@.len(), |i: int| self.transient@[i]@)
    }

    /// The set of transient images of the frame that is recorded next: the
    /// sets take turns.
    pub open spec fn bank(&self) -> Map<nat, Image> {
        self.banks()[(self.frame_counter() as int) % (TRANSIENT_RESOURCE_INSTANCES as int)]
    }

    /// What resolves the images of the frame that is recorded next, with
    /// `target` as its swapchain image.
    pub open spec fn resolver(&self, target: Image) -> Resolver {
        Resolver { bindings: self.bindings(), bank: self.bank(), target }
    }

    /// The graph is well-formed, and there is one set of transient images
    /// for each frame in flight.
    pub closed spec fn wf(&self) -> bool {
        &&& self.graph.wf()
        &&& self.image_bindings.wf()
        &&& self.transient@.len() == TRANSIENT_RESOURCE_INSTANCES
        &&& forall|i: int| 0 <= i < self.transient@.len() ==> (#[trigger] self.transient@[i]).wf()
    }

    /// What well-formedness says to the outside.
    pub proof fn lemma_wf(&self)
        requires
            self.wf(),
        ensures
            self.graph().wf(),
            self.banks().len() == TRANSIENT_RESOURCE_INSTANCES,
    {
    }

    /// A runtime for `graph`. The image that the graph was compiled for is
    /// bound to the swapchain; every other image is transient.
    pub fn new(graph: Graph) -> (runtime: Runtime)
        requires
            graph.wf(),
        ensures
            runtime.wf(),
            runtime.graph() == graph,
            runtime.frame_counter() == 0,
            runtime.bindings() == Map::<nat, ImageBinding>::empty().insert(
                graph.final_image()@,
                ImageBinding::Swapchain,
            ),
            forall|i: int| 0 <= i < runtime.banks().len() ==> #[trigger] runtime.banks()[i] == Map::<
                nat,
                Image,
            >::empty(),
    {
        let mut transient: Vec<TransientResources> = Vec::new();
        let mut i: usize = 0;
        while i < TRANSIENT_RESOURCE_INSTANCES
            invariant
                i <= TRANSIENT_RESOURCE_INSTANCES,
                transient@.len() == i,
                forall|j: int|
                    0 <= j < i ==> (#[trigger] transient@[j]).wf() && transient@[j]@ == Map::<
                        nat,
                        Image,
                    >::empty(),
            decreases TRANSIENT_RESOURCE_INSTANCES - i,
        {
            transient.push(TransientResources::new());
            i += 1;
        }
        let mut image_bindings = ImageBindings::with_capacity(graph.num_images());
        proof {
            graph.editor().images().lemma_wf();
        }
        image_bindings.set(graph.swapchain_image(), ImageBinding::Swapchain);
        Runtime { graph, frame_counter: 0, image_bindings, transient }
    }

    /// The place of the set of transient images of the frame that is
    /// recorded next.
    pub fn transient_idx(&self) -> (idx: usize)
        requires
            self.wf(),
        ensures
            idx == (self.frame_counter() as int) % (TRANSIENT_RESOURCE_INSTANCES as int),
            idx < TRANSIENT_RESOURCE_INSTANCES,
    {
        (self.frame_counter % (TRANSIENT_RESOURCE_INSTANCES as u64)) as usize
    }

    /// The graph that the runtime runs.
    pub fn compiled(&self) -> (graph: &Graph)
        ensures
            *graph == self.graph(),
    {
        &self.graph
    }

    /// What a node sees of a frame that uses the set of transient images at
    /// place `bank`, with `target` as its swapchain image.
    pub fn run_context<'a>(&'a self, bank: usize, target: &'a Image) -> (cx: RunContext<'a>)
        requires
            self.wf(),
            bank < TRANSIENT_RESOURCE_INSTANCES,
        ensures
            cx.resolver() == (Resolver {
                bindings: self.bindings(),
                bank: self.banks()[bank as int],
                target: *target,
            }),
    {
        RunContext::new(&self.image_bindings, &self.transient[bank], target)
    }

    /// Binds `image` to `binding`.
    pub fn bind_image(&mut self, image: GraphImage, binding: ImageBinding)
        requires
            old(self).wf(),
            image@ < u32::MAX,
        ensures
            final(self).wf(),
            final(self).graph() == old(self).graph(),
            final(self).frame_counter() == old(self).frame_counter(),
            final(self).banks() == old(self).banks(),
            final(self).bindings() == old(self).bindings().insert(image@, binding),
    {
        self.image_bindings.set(image, binding);
    }

    /// The layout in which the graph leaves the image that it was compiled
    /// for: the layout of the write that produces it.
    pub fn swapchain_image_layout(&self) -> (layout: ImageLayout)
        requires
            self.wf(),
        ensures
            layout == crate::graph::model::producers(
                self.graph().nodes(),
                self.graph().nodes().len(),
                self.graph().final_image()@,
            )[0].access.layout,
    {
        self.graph.final_producer().access.layout
    }

    /// What the transient images of the next frame need: one request for
    /// each image that is bound to a transient image, in the order of the
    /// keys.
    pub fn resolve_resources(&self) -> (needed: Vec<ResolveRequest>)
        requires
            self.wf(),
        ensures
            needed@ == requests(
                self.graph(),
                self.bindings(),
                self.bank(),
                self.graph().editor().images().infos().len(),
            ),
    {
        let n = self.graph.num_images();
        let idx = self.transient_idx();
        let bank = &self.transient[idx];
        assert(bank@ == self.bank());
        proof {
            self.graph.editor().images().lemma_wf();
        }
        let mut needed: Vec<ResolveRequest> = Vec::new();
        let mut i: usize = 0;
        while i < n
            invariant
                self.wf(),
                n == self.graph().editor().images().infos().len(),
                n <= u32::MAX,
                i <= n,
                bank@ == self.bank(),
                needed@ == requests(self.graph(), self.bindings(), self.bank(), i as nat),
            decreases n - i,
        {
            let key: GraphImage = Key::from_index(i as u32);
            match self.image_bindings.get(key) {
                ImageBinding::Transient => {
                    let info = self.wanted(key);
                    let action = bank.create(key, &info);
                    needed.push(ResolveRequest { image: key, info, action });
                },
                ImageBinding::Swapchain => {},
            }
            i += 1;
        }
        needed
    }

    /// The descriptor that the physical image of `image` needs.
    fn wanted(&self, image: GraphImage) -> (info: ImageInfo)
        requires
            self.wf(),
            image@ < self.graph().editor().images().infos().len(),
        ensures
            info == wanted_info(self.graph(), image@),
    {
        let graph_info = self.graph.image_info(image).unwrap();
        let flags = self.graph.image_usage(image).unwrap();
        ImageInfo {
            format: graph_info.format,
            extent: ImageExtent::D2(graph_info.extent),
            tiling: ImageTiling::Optimal,
            usage: flags,
        }
    }

    /// Takes `created` as the transient image of `image` for the next
    /// frame, and hands back the image that it replaces, which has to be
    /// destroyed.
    pub fn install_transient(&mut self, image: GraphImage, created: Image) -> (replaced: Option<Image>)
        requires
            old(self).wf(),
            image@ < u32::MAX,
        ensures
            final(self).wf(),
            final(self).graph() == old(self).graph(),
            final(self).frame_counter() == old(self).frame_counter(),
            final(self).bindings() == old(self).bindings(),
            final(self).banks() == old(self).banks().update(
                (old(self).frame_counter() as int) % (TRANSIENT_RESOURCE_INSTANCES as int),
                old(self).bank().insert(image@, created),
            ),
            replaced == if old(self).bank().contains_key(image@) {
                Some(old(self).bank()[image@])
            } else {
                None
            },
    {
        let idx = self.transient_idx();
        let replaced = self.transient[idx].install(image, created);
        assert(self.banks() =~= old(self).banks().update(idx as int, old(self).bank().insert(image@, created)));
        replaced
    }

    /// Has every image that is bound to a transient image such an image,
    /// with the descriptor that it needs?
    pub fn is_resolved(&self) -> (all: bool)
        requires
            self.wf(),
        ensures
            all == resolved(self.graph(), self.bindings(), self.bank()),
    {
        let n = self.graph.num_images();
        let idx = self.transient_idx();
        let bank = &self.transient[idx];
        assert(bank@ == self.bank());
        proof {
            self.graph.editor().images().lemma_wf();
        }
        let mut i: usize = 0;
        while i < n
            invariant
                self.wf(),
                n == self.graph().editor().images().infos().len(),
                n <= u32::MAX,
                i <= n,
                bank@ == self.bank(),
                forall|image: nat|
                    image < i && #[trigger] binding_of::<GraphImageInfo>(self.bindings(), image)
                        == ImageBinding::Transient ==> self.bank().contains_key(image)
                        && self.bank()[image].info == wanted_info(self.graph(), image),
            decreases n - i,
        {
            let key: GraphImage = Key::from_index(i as u32);
            match self.image_bindings.get(key) {
                ImageBinding::Transient => {
                    let info = self.wanted(key);
                    match bank.get(key) {
                        None => {
                            assert(binding_of::<GraphImageInfo>(self.bindings(), i as nat)
                                == ImageBinding::Transient);
                            return false;
                        },
                        Some(physical) => {
                            if physical.info != info {
                                assert(binding_of::<GraphImageInfo>(self.bindings(), i as nat)
                                    == ImageBinding::Transient);
                                return false;
                            }
                        },
                    }
                },
                ImageBinding::Swapchain => {},
            }
            i += 1;
        }
        true
    }

    /// Records the commands of one frame, with `target` as the swapchain
    /// image of the frame.
    ///
    /// For each node in the order of the graph: one pipeline barrier, with
    /// the initial barrier of every output that supersedes nothing and then
    /// the barriers of the node's dependencies; then the node's debug label
    /// span, in which the node records its own commands. Nothing is
    /// recorded, and nothing changes, unless the transient images are
    /// resolved. After a frame the next set of transient images has its
    /// turn.
    pub fn execute(&mut self, target: &Image) -> (recorded: Option<Vec<Command>>)
        requires
            old(self).wf(),
        ensures
            final(self).wf(),
            final(self).graph() == old(self).graph(),
            final(self).bindings() == old(self).bindings(),
            final(self).banks() == old(self).banks(),
            recorded is Some <==> resolved(old(self).graph(), old(self).bindings(), old(self).bank()),
            recorded is None ==> final(self).frame_counter() == old(self).frame_counter(),
            recorded matches Some(commands) ==> {
                &&& records(commands@, old(self).resolver(*target), old(self).graph())
                &&& final(self).frame_counter() == if old(self).frame_counter() == u64::MAX {
                    0u64
                } else {
                    (old(self).frame_counter() + 1) as u64
                }
            },
    {
        if !self.is_resolved() {
            return None;
        }
        let commands = self.record(target);
        self.frame_counter = self.frame_counter.wrapping_add(1);
        Some(commands)
    }

    /// Records the commands of one frame.
    fn record(&self, target: &Image) -> (commands: Vec<Command>)
        requires
            self.wf(),
            resolved(self.graph(), self.bindings(), self.bank()),
        ensures
            records(commands@, self.resolver(*target), self.graph()),
    {
        let ghost graph = self.graph;
        let ghost resolver = self.resolver(*target);
        let ghost n_images = graph.editor().images().infos().len();
        let idx = self.transient_idx();
        let run = RunContext::new(&self.image_bindings, &self.transient[idx], target);
        assert(run.resolver() == resolver);
        let order = self.graph.graph_order();
        let mut commands: Vec<Command> = Vec::new();
        let mut p: usize = 0;
        while p < order.len()
            invariant
                self.wf(),
                graph == self.graph(),
                resolver == self.resolver(*target),
                run.resolver() == resolver,
                n_images == graph.editor().images().infos().len(),
                resolved(graph, resolver.bindings, resolver.bank),
                crate::depgraph::positions(order@) == graph.order(),
                p <= order@.len(),
                commands@.len() == 4 * p,
                forall|q: int| 0 <= q < p ==> #[trigger] step_recorded(commands@, resolver, graph, q),
            decreases order@.len() - p,
        {
            let dep_key = order[p];
            proof {
                assert(graph.order()[p as int] == dep_key@);
                graph.lemma_order(p as int);
            }
            let node_key = self.graph.node_key(dep_key);
            let node = self.graph.node(node_key).unwrap();
            let ghost slots = graph.nodes()[node_key@ as int];
            let outputs = &node.outputs.images;
            let mut barriers: Vec<ImageBarrier> = Vec::new();
            let mut o: usize = 0;
            while o < outputs.len()
                invariant
                    self.wf(),
                    graph == self.graph(),
                    run.resolver() == resolver,
                    resolver.bindings == self.bindings(),
                    n_images == graph.editor().images().infos().len(),
                    resolved(graph, resolver.bindings, resolver.bank),
                    node_key@ < graph.nodes().len(),
                    slots == graph.nodes()[node_key@ as int],
                    outputs@ == slots.outputs,
                    o <= outputs@.len(),
                    barriers@ == resolver.initial_barriers(outputs@, o as nat),
                decreases outputs@.len() - o,
            {
                let output = outputs[o];
                if output.consumed.is_none() {
                    proof {
                        assert(slots.outputs[o as int].key@ < n_images);
                        assert(binding_of::<GraphImageInfo>(resolver.bindings, output.key@)
                            == ImageBinding::Transient ==> resolver.bank.contains_key(output.key@));
                    }
                    let physical = run.resolve(output.key).unwrap();
                    let range = match self.image_bindings.get(output.key) {
                        ImageBinding::Transient => subresource_range_full(physical.info.format.aspects()),
                        ImageBinding::Swapchain => image_subresource_range_full_color(),
                    };
                    barriers.push(
                        ImageBarrier {
                            image: physical.handle,
                            src_stage_mask: output.access.stage_mask,
                            src_access_mask: output.access.access_mask,
                            dst_stage_mask: output.access.stage_mask,
                            dst_access_mask: output.access.access_mask,
                            old_layout: IMAGE_LAYOUT_UNDEFINED,
                            new_layout: output.access.layout,
                            src_queue_family_index: QUEUE_FAMILY_IGNORED,
                            dst_queue_family_index: QUEUE_FAMILY_IGNORED,
                            subresource_range: range,
                        },
                    );
                }
                o += 1;
            }
            let ghost initial = barriers@;
            let deps = self.graph.node_dependencies(dep_key);
            let ghost out = graph.dep_graph().out_edges(dep_key@);
            let mut k: usize = 0;
            while k < deps.len()
                invariant
                    self.wf(),
                    graph == self.graph(),
                    run.resolver() == resolver,
                    n_images == graph.editor().images().infos().len(),
                    resolved(graph, resolver.bindings, resolver.bank),
                    dep_key@ < graph.live().len(),
                    out == graph.dep_graph().out_edges(dep_key@),
                    deps@.len() == out.len(),
                    forall|i: int|
                        0 <= i < deps@.len() ==> *(#[trigger] deps@[i]) == graph.dep_graph()@.weights[out[i] as int],
                    k <= deps@.len(),
                    barriers@ == initial + resolver.dependency_barriers(graph, out, k as nat),
                decreases deps@.len() - k,
            {
                let dep = deps[k];
                let ghost base = barriers@;
                let ghost images = graph.dep_graph()@.weights[out[k as int] as int].images@;
                assert(dep.images@ == images);
                let mut y: usize = 0;
                while y < dep.images.len()
                    invariant
                        self.wf(),
                        graph == self.graph(),
                        run.resolver() == resolver,
                        n_images == graph.editor().images().infos().len(),
                        resolved(graph, resolver.bindings, resolver.bank),
                        dep_key@ < graph.live().len(),
                        out == graph.dep_graph().out_edges(dep_key@),
                        0 <= k < out.len(),
                        images == graph.dep_graph()@.weights[out[k as int] as int].images@,
                        dep.images@ == images,
                        y <= images.len(),
                        barriers@ == base + resolver.edge_barriers(images, y as nat),
                    decreases images.len() - y,
                {
                    let img_dep = &dep.images[y];
                    proof {
                        graph.lemma_barrier_images(dep_key@, k as int, y as int);
                        assert(binding_of::<GraphImageInfo>(resolver.bindings, img_dep.image@)
                            == ImageBinding::Transient ==> resolver.bank.contains_key(img_dep.image@));
                    }
                    let physical = run.resolve(img_dep.image).unwrap();
                    let range = image_subresource_range_full_color();
                    barriers.push(self.graph.image_barrier(img_dep, physical.handle, range));
                    proof {
                        assert(barriers@ =~= base + resolver.edge_barriers(images, (y + 1) as nat));
                    }
                    y += 1;
                }
                proof {
                    assert(barriers@ =~= initial + resolver.dependency_barriers(graph, out, (k + 1) as nat));
                }
                k += 1;
            }
            proof {
                assert(barriers@ == resolver.node_barriers(graph, dep_key@));
            }
            let ghost before = commands@;
            commands.push(Command::PipelineBarrier(barriers));
            commands.push(Command::BeginDebugLabel(node_key));
            commands.push(Command::ExecuteNode(node_key));
            commands.push(Command::EndDebugLabel);
            proof {
                assert forall|q: int| 0 <= q < p + 1 implies #[trigger] step_recorded(
                    commands@,
                    resolver,
                    graph,
                    q,
                ) by {
                    if q < p {
                        assert(step_recorded(before, resolver, graph, q));
                        assert(commands@[4 * q] == before[4 * q]);
                        assert(commands@[4 * q + 1] == before[4 * q + 1]);
                        assert(commands@[4 * q + 2] == before[4 * q + 2]);
                        assert(commands@[4 * q + 3] == before[4 * q + 3]);
                    }
                }
            }
            p += 1;
        }
        commands
    }
}

/// The barriers of a list of dependencies are the barriers of the
/// dependencies, one by one.
pub proof fn lemma_edge_barriers(resolver: Resolver, deps: Seq<ImageDependency>, upto: nat)
    requires
        upto <= deps.len(),
    ensures
        resolver.edge_barriers(deps, upto).len() == upto,
        forall|y: int|
            0 <= y < upto ==> #[trigger] resolver.edge_barriers(deps, upto)[y] == resolver.dependency_barrier(
                deps[y],
            ),
    decreases upto,
{
    if upto > 0 {
        lemma_edge_barriers(resolver, deps, (upto - 1) as nat);
    }
}

/// No barrier is made up, and none is inflated: every barrier that is
/// recorded for the dependencies of a node is the barrier of one of the
/// node's declared dependencies, with exactly its stage masks, access
/// masks and layouts, on the physical image of its image.
pub proof fn lemma_recorded_barriers_declared(
    resolver: Resolver,
    graph: Graph,
    node: nat,
    upto: nat,
    y: int,
)
    requires
        graph.wf(),
        node < graph.live().len(),
        upto <= graph.dep_graph().out_edges(node).len(),
        0 <= y < resolver.dependency_barriers(graph, graph.dep_graph().out_edges(node), upto).len(),
    ensures
        exists|x: int|
            0 <= x < node_deps(graph.nodes(), graph.live()[node as int]).len()
                && resolver.dependency_barriers(graph, graph.dep_graph().out_edges(node), upto)[y]
                == resolver.dependency_barrier(
                (#[trigger] node_deps(graph.nodes(), graph.live()[node as int])[x]).barrier,
            ),
    decreases upto,
{
    let out = graph.dep_graph().out_edges(node);
    let deps = node_deps(graph.nodes(), graph.live()[node as int]);
    if upto > 0 {
        let before = resolver.dependency_barriers(graph, out, (upto - 1) as nat);
        if y < before.len() {
            lemma_recorded_barriers_declared(resolver, graph, node, (upto - 1) as nat, y);
            let x = choose|x: int|
                0 <= x < deps.len() && before[y] == resolver.dependency_barrier((#[trigger] deps[x]).barrier);
            assert(resolver.dependency_barriers(graph, out, upto)[y] == resolver.dependency_barrier(
                deps[x].barrier,
            ));
        } else {
            let k = upto - 1;
            let images = graph.dep_graph()@.weights[out[k] as int].images@;
            let z = y - before.len();
            lemma_edge_barriers(resolver, images, images.len());
            let ts = targets(deps, deps.len());
            assert(edges_stand_for(graph.dep_graph()@, out, node, deps));
            assert(edge_stands_for(
                graph.dep_graph()@,
                out[k] as int,
                node,
                ts[k],
                barriers_to(deps, deps.len(), ts[k]),
            ));
            lemma_barriers_from_deps(deps, deps.len(), ts[k], z);
            let x = choose|x: int|
                0 <= x < deps.len() && (#[trigger] deps[x]).target == ts[k] && deps[x].barrier
                    == barriers_to(deps, deps.len(), ts[k])[z];
            assert(resolver.dependency_barriers(graph, out, upto)[y] == resolver.edge_barriers(
                images,
                images.len(),
            )[z]);
            assert(resolver.dependency_barriers(graph, out, upto)[y] == resolver.dependency_barrier(
                deps[x].barrier,
            ));
        }
    }
}

} // verus!
