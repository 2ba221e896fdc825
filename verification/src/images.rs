//! Decoded images for the layout engine.
//!
//! The layout engine itself never touches the file system: the caller reads
//! the bytes of each referenced image and hands them to
//! [`ImageStore::insert_encoded`], which decodes them (through the `image`
//! crate) and keys the decoded pixels by the `src` string they came from.

use vstd::prelude::*;
use crate::attrs::{assoc_map, assoc_view, lemma_assoc_map_absent, lemma_assoc_map_at};
use crate::text::str_eq;
use crate::dom::{nodes_view, Node, NodeModel};

verus! {

/// A decoded image: RGBA8 pixels, row-major, `width * height * 4` bytes.
#[derive(Debug, PartialEq)]
pub struct ImageData {
    pub width: u32,
    pub height: u32,
    pub data: Vec<u8>,
}

/// The mathematical shape of a decoded image.
#[verifier::ext_equal]
pub ghost struct ImageModel {
    pub width: int,
    pub height: int,
    pub data: Seq<u8>,
}

impl View for ImageData {
    type V = ImageModel;

    open spec fn view(&self) -> ImageModel {
        ImageModel {
            width: self.width as int,
            height: self.height as int,
            data: self.data@,
        }
    }
}

/// The pixel buffer holds exactly four bytes per pixel.
pub open spec fn image_wf(m: ImageModel) -> bool {
    m.data.len() == 4 * m.width * m.height
}

impl ImageData {
    pub fn new(width: u32, height: u32, data: Vec<u8>) -> (r: ImageData)
        requires
            data@.len() == 4 * width * height,
        ensures
            r@ == (ImageModel { width: width as int, height: height as int, data: data@ }),
            image_wf(r@),
    {
        ImageData { width, height, data }
    }

    /// A fresh copy of the pixel bytes.
    pub fn data_clone(&self) -> (r: Vec<u8>)
        ensures
            r@ == self@.data,
    {
        let mut out: Vec<u8> = Vec::new();
        let mut i: usize = 0;
        while i < self.data.len()
            invariant
                i <= self.data.len(),
                out@ == self.data@.take(i as int),
            decreases self.data.len() - i,
        {
            out.push(self.data[i]);
            i = i + 1;
            proof {
                assert(out@ =~= self.data@.take(i as int));
            }
        }
        proof {
            assert(self.data@.take(self.data@.len() as int) =~= self.data@);
        }
        out
    }
}

/// Every image a store can hold has `u32` pixel dimensions.
pub open spec fn imgs_wf(imgs: Map<Seq<char>, ImageModel>) -> bool {
    forall|k: Seq<char>| imgs.contains_key(k)
        ==> 0 <= (#[trigger] imgs[k]).width <= u32::MAX
            && 0 <= imgs[k].height <= u32::MAX
}

/// Relies on `image::load_from_memory` and `DynamicImage::to_rgba8` /
/// `ImageBuffer::into_raw`: whatever image comes back, its RGBA8 buffer
/// holds exactly `width * height * 4` bytes. Nothing is promised of which
/// outcome comes back: the crate consults process-global decoding hooks, so
/// the result is not a function of the bytes alone.
#[verifier::external_body]
fn decode_image(bytes: &Vec<u8>) -> (r: Option<ImageData>)
    ensures
        r matches Some(img) ==> image_wf(img@),
{
    match image::load_from_memory(bytes.as_slice()) {
        Ok(img) => {
            let rgba = img.to_rgba8();
            let (width, height) = rgba.dimensions();
            Some(ImageData { width, height, data: rgba.into_raw() })
        },
        Err(_) => None,
    }
}

/// Decoded images keyed by the `src` string that referenced them.
pub struct ImageStore {
    log: Vec<(String, ImageData)>,
}

impl View for ImageStore {
    type V = Map<Seq<char>, ImageModel>;

    closed spec fn view(&self) -> Map<Seq<char>, ImageModel> {
        assoc_map(assoc_view(self.log@))
    }
}

impl ImageStore {
    pub fn new() -> (s: ImageStore)
        ensures
            s@ == Map::<Seq<char>, ImageModel>::empty(),
    {
        ImageStore { log: Vec::new() }
    }

    /// Store an already decoded image under `src`.
    pub fn insert(&mut self, src: String, img: ImageData)
        requires
            image_wf(img@),
        ensures
            final(self)@ == old(self)@.insert(src@, img@),
    {
        let ghost k = src@;
        let ghost v = img@;
        let ghost before = assoc_view(self.log@);
        self.log.push((src, img));
        proof {
            assert(assoc_view(self.log@).drop_last() =~= before);
            assert(assoc_view(self.log@).last() == (k, v));
        }
    }

    /// Decode encoded image bytes and store the result under `src`: on
    /// success some well-formed image is stored there, on failure the
    /// store is unchanged. Which of the two happens for given bytes is not
    /// stated: the decoder is an outside collaborator.
    pub fn insert_encoded(&mut self, src: String, bytes: &Vec<u8>) -> (ok: bool)
        ensures
            ok ==> final(self)@ == old(self)@.insert(src@, final(self)@[src@])
                && image_wf(final(self)@[src@]),
            !ok ==> final(self)@ == old(self)@,
    {
        match decode_image(bytes) {
            Some(img) => {
                self.insert(src, img);
                true
            },
            None => false,
        }
    }

    /// The view of any store holds only images with `u32` dimensions.
    pub proof fn lemma_wf(&self)
        ensures
            imgs_wf(self@),
    {
        assert forall|k: Seq<char>| self@.contains_key(k)
            implies 0 <= (#[trigger] self@[k]).width <= u32::MAX
                && 0 <= self@[k].height <= u32::MAX by {
            crate::attrs::lemma_assoc_map_from_log(assoc_view(self.log@), k);
            let i = choose|i: int| 0 <= i < assoc_view(self.log@).len()
                && #[trigger] assoc_view(self.log@)[i] == (k, self@[k]);
            assert(assoc_view(self.log@)[i].1 == self.log@[i].1@);
        }
    }

    pub fn get<'a>(&'a self, src: &str) -> (r: Option<&'a ImageData>)
        ensures
            match r {
                Some(d) => self@.contains_key(src@) && d@ == self@[src@],
                None => !self@.contains_key(src@),
            },
    {
        let mut i: usize = self.log.len();
        while i > 0
            invariant
                i <= self.log.len(),
                forall|j: int| i <= j < self.log@.len()
                    ==> (#[trigger] assoc_view(self.log@)[j]).0 != src@,
            decreases i,
        {
            i = i - 1;
            if str_eq(self.log[i].0.as_str(), src) {
                proof {
                    lemma_assoc_map_at(assoc_view(self.log@), i as int);
                }
                return Some(&self.log[i].1);
            }
        }
        proof {
            lemma_assoc_map_absent(assoc_view(self.log@), src@);
        }
        None
    }
}

/// The views of a sequence of strings.
pub open spec fn str_views(s: Seq<String>) -> Seq<Seq<char>> {
    Seq::new(s.len(), |i: int| s[i]@)
}

/// The `src` attributes of the `img` elements of a forest, in document
/// order. This is what a caller must read and decode before layout.
pub open spec fn spec_image_sources(cs: Seq<NodeModel>) -> Seq<Seq<char>>
    decreases cs, 0int,
{
    if cs.len() == 0 {
        Seq::empty()
    } else {
        spec_node_image_sources(cs[0]) + spec_image_sources(cs.drop_first())
    }
}

pub open spec fn spec_node_image_sources(n: NodeModel) -> Seq<Seq<char>>
    decreases n, 1int,
{
    match n {
        NodeModel::Text(_) => Seq::empty(),
        NodeModel::Element { tag, attrs, children } => {
            let own: Seq<Seq<char>> = if tag == "img"@ && attrs.contains_key("src"@) {
                seq![attrs["src"@]]
            } else {
                Seq::empty()
            };
            own + spec_image_sources(children)
        },
    }
}

fn collect_node_sources(n: &Node, out: &mut Vec<String>)
    ensures
        str_views(final(out)@) == str_views(old(out)@) + spec_node_image_sources(n@),
    decreases n, 1int,
{
    match n {
        Node::Text(_) => {
            proof {
                assert(str_views(out@) =~= str_views(out@) + Seq::<Seq<char>>::empty());
            }
        },
        Node::Element { tag, attrs, children } => {
            let ghost pre = out@;
            if crate::text::str_eq(tag.as_str(), "img") {
                match attrs.get("src") {
                    Some(src) => {
                        out.push(src.clone());
                        proof {
                            assert(str_views(out@) =~= str_views(pre) + seq![attrs@["src"@]]);
                        }
                    },
                    None => {
                        proof {
                            assert(str_views(out@) =~= str_views(pre)
                                + Seq::<Seq<char>>::empty());
                        }
                    },
                }
            } else {
                proof {
                    assert(str_views(out@) =~= str_views(pre) + Seq::<Seq<char>>::empty());
                }
            }
            let ghost mid = out@;
            collect_sources(children, out);
            proof {
                assert(str_views(out@) =~= str_views(pre)
                    + spec_node_image_sources(n@));
            }
        },
    }
}

fn collect_sources(nodes: &Vec<Node>, out: &mut Vec<String>)
    ensures
        str_views(final(out)@) == str_views(old(out)@)
            + spec_image_sources(nodes_view(nodes@)),
    decreases nodes@, 0int,
{
    let ghost all = nodes_view(nodes@);
    let ghost base = out@;
    proof {
        assert(all.skip(0) =~= all);
    }
    let mut i: usize = 0;
    while i < nodes.len()
        invariant
            i <= nodes@.len(),
            all == nodes_view(nodes@),
            str_views(base) + spec_image_sources(all)
                == str_views(out@) + spec_image_sources(all.skip(i as int)),
        decreases nodes@.len() - i,
    {
        let ghost pre = out@;
        let ghost tail = all.skip(i as int);
        proof {
            assert(all.len() == nodes@.len());
            assert(tail[0] == all[i as int]);
            assert(all[i as int] == nodes@[i as int]@);
            assert(tail.drop_first() =~= all.skip(i as int + 1));
        }
        collect_node_sources(&nodes[i], out);
        proof {
            let own = spec_node_image_sources(all[i as int]);
            let rest = spec_image_sources(all.skip(i as int + 1));
            assert((str_views(pre) + own) + rest =~= str_views(pre) + (own + rest));
        }
        i = i + 1;
    }
    proof {
        assert(all.skip(all.len() as int) =~= Seq::<NodeModel>::empty());
        assert(str_views(out@) + Seq::<Seq<char>>::empty() =~= str_views(out@));
    }
}

/// Every `img` `src` of a forest, in document order. A caller reads and
/// decodes each and hands the results to layout in an [`ImageStore`].
pub fn image_sources(nodes: &Vec<Node>) -> (r: Vec<String>)
    ensures
        str_views(r@) == spec_image_sources(nodes_view(nodes@)),
{
    let mut out: Vec<String> = Vec::new();
    proof {
        assert(str_views(out@) =~= Seq::<Seq<char>>::empty());
        assert(Seq::<Seq<char>>::empty()
            + spec_image_sources(nodes_view(nodes@))
            =~= spec_image_sources(nodes_view(nodes@)));
    }
    collect_sources(nodes, &mut out);
    out
}

} // verus!
