//! The image-generation server's HTTP interface: its endpoints and the
//! records its replies hold.

use vstd::prelude::*;
use vstd::string::*;
use crate::text::str_equal;

verus! {

/// A byte that URL encoding leaves as it is: an ASCII letter or digit, or
/// one of `-`, `.`, `_`, `~`.
pub open spec fn is_unreserved(b: u8) -> bool {
    ||| 48 <= b <= 57
    ||| 65 <= b <= 90
    ||| 97 <= b <= 122
    ||| b == 45
    ||| b == 46
    ||| b == 95
    ||| b == 126
}

/// Upper-case hexadecimal digit of `d` (below 16).
pub open spec fn hex_digit(d: int) -> char {
    if d < 10 {
        (48 + d) as char
    } else {
        (55 + d) as char
    }
}

/// Percent-encoding of `bytes`: unreserved bytes stay, every other byte
/// becomes `%` and its two upper-case hexadecimal digits.
pub open spec fn percent_encoded(bytes: Seq<u8>) -> Seq<char>
    decreases bytes.len(),
{
    if bytes.len() == 0 {
        Seq::empty()
    } else {
        let b = bytes[0];
        let head = if is_unreserved(b) {
            seq![b as char]
        } else {
            seq!['%', hex_digit(b as int / 16), hex_digit(b as int % 16)]
        };
        head + percent_encoded(bytes.drop_first())
    }
}

/// URL encoding of a text: percent-encoding of its UTF-8 bytes.
pub open spec fn url_encoded(s: Seq<char>) -> Seq<char> {
    percent_encoded(vstd::utf8::encode_utf8(s))
}

/// URL-encodes `s`.
///
/// Calls `urlencoding::encode`, whose source percent-encodes every byte of
/// the UTF-8 encoding except ASCII alphanumerics and `-`, `.`, `_`, `~`,
/// with upper-case hexadecimal digits.
#[verifier::external_body]
pub(crate) fn url_encode(s: &str) -> (r: String)
    ensures
        r@ == url_encoded(s@),
{
    urlencoding::encode(s).into_owned()
}

/// One image that a finished generation produced.
pub struct ImageInfo {
    pub filename: String,
    pub subfolder: String,
    pub image_type: String,
}

/// The outputs of one node of a finished generation.
pub struct OutputNode {
    pub images: Option<Vec<ImageInfo>>,
}

/// The history of a finished generation: its output nodes, in the order
/// the server's reply is walked.
pub struct PromptHistory {
    pub outputs: Vec<(String, OutputNode)>,
}

impl PromptHistory {
    /// No two output nodes share an id, as in the map the server sends.
    pub open spec fn wf(&self) -> bool {
        forall|i: int, j: int|
            0 <= i < j < self.outputs@.len() ==> #[trigger] self.outputs@[i].0@ != #[trigger] self.outputs@[j].0@
    }

    /// Whether no two output nodes share an id.
    pub fn names_distinct(&self) -> (r: bool)
        ensures
            r == self.wf(),
    {
        let n = self.outputs.len();
        let mut i: usize = 0;
        while i < n
            invariant
                n == self.outputs@.len(),
                0 <= i <= n,
                forall|a: int, b: int| 0 <= a < b < n && a < i ==> #[trigger] self.outputs@[a].0@ != #[trigger] self.outputs@[b].0@,
            decreases n - i,
        {
            let mut j: usize = i + 1;
            while j < n
                invariant
                    n == self.outputs@.len(),
                    0 <= i < n,
                    i + 1 <= j <= n,
                    forall|a: int, b: int| 0 <= a < b < n && a < i ==> #[trigger] self.outputs@[a].0@ != #[trigger] self.outputs@[b].0@,
                    forall|b: int| i < b < j ==> self.outputs@[i as int].0@ != #[trigger] self.outputs@[b].0@,
                decreases n - j,
            {
                if str_equal(self.outputs[i].0.as_str(), self.outputs[j].0.as_str()) {
                    return false;
                }
                j = j + 1;
            }
            i = i + 1;
        }
        true
    }
}

/// The server's reply to a queued prompt.
pub struct PromptResponse {
    pub prompt_id: String,
}

/// The output node has at least one image.
pub open spec fn has_image(node: OutputNode) -> bool {
    node.images matches Some(images) && images@.len() > 0
}

/// Index of the first output node with an image, or the number of nodes.
pub open spec fn first_image_output(outputs: Seq<(String, OutputNode)>) -> int
    decreases outputs.len(),
{
    if outputs.len() == 0 {
        0
    } else if has_image(outputs[0].1) {
        0
    } else {
        1 + first_image_output(outputs.drop_first())
    }
}

proof fn lemma_first_image_output(outputs: Seq<(String, OutputNode)>, i: int)
    requires
        0 <= i <= outputs.len(),
        forall|j: int| 0 <= j < i ==> !has_image(#[trigger] outputs[j].1),
    ensures
        first_image_output(outputs) == i + first_image_output(outputs.skip(i)),
        0 <= first_image_output(outputs) <= outputs.len(),
    decreases outputs.len(),
{
    if outputs.len() > 0 && !has_image(outputs[0].1) {
        assert forall|j: int| 0 <= j < i - 1 implies !has_image(#[trigger] outputs.drop_first()[j].1) by {
            assert(outputs.drop_first()[j] == outputs[j + 1]);
        }
        if i > 0 {
            lemma_first_image_output(outputs.drop_first(), i - 1);
            assert(outputs.drop_first().skip(i - 1) =~= outputs.skip(i));
        } else {
            lemma_first_image_output(outputs.drop_first(), 0);
            assert(outputs.skip(0) =~= outputs);
        }
    } else {
        assert(outputs.skip(0) =~= outputs);
    }
}

/// The image to download from a finished generation: the first image of
/// the first output node that has any.
pub fn first_output_image(history: &PromptHistory) -> (r: Option<&ImageInfo>)
    ensures
        match r {
            Some(info) => {
                let i = first_image_output(history.outputs@);
                &&& i < history.outputs@.len()
                &&& history.outputs@[i].1.images matches Some(images) && images@[0] == *info
            },
            None => first_image_output(history.outputs@) == history.outputs@.len(),
        },
{
    let mut i: usize = 0;
    while i < history.outputs.len()
        invariant
            0 <= i <= history.outputs@.len(),
            forall|j: int| 0 <= j < i ==> !has_image(#[trigger] history.outputs@[j].1),
        decreases history.outputs@.len() - i,
    {
        match &history.outputs[i].1.images {
            Some(images) => {
                if images.len() > 0 {
                    proof {
                        lemma_first_image_output(history.outputs@, i as int);
                        assert(history.outputs@.skip(i as int)[0] == history.outputs@[i as int]);
                        assert(has_image(history.outputs@[i as int].1));
                        assert(first_image_output(history.outputs@) == i);
                    }
                    return Some(&images[0]);
                }
            },
            None => {},
        }
        i = i + 1;
    }
    proof {
        lemma_first_image_output(history.outputs@, i as int);
        assert(history.outputs@.skip(i as int) =~= Seq::<(String, OutputNode)>::empty());
    }
    None
}

/// The URL that serves image `image` from the server at `base`.
pub open spec fn view_url_of(base: Seq<char>, image: ImageInfo) -> Seq<char> {
    base + "/view?filename="@ + url_encoded(image.filename@) + "&subfolder="@ + url_encoded(image.subfolder@)
        + "&type="@ + url_encoded(image.image_type@)
}

/// Where the image-generation server listens.
pub struct ComfyServer {
    pub url: String,
}

impl ComfyServer {
    /// The server on this machine at its default port.
    pub fn local() -> (r: ComfyServer)
        ensures
            r.url@ == "http://127.0.0.1:8188"@,
    {
        ComfyServer { url: String::from_str("http://127.0.0.1:8188") }
    }

    /// The endpoint that queues a prompt.
    pub fn prompt_url(&self) -> (r: String)
        ensures
            r@ == self.url@ + "/prompt"@,
    {
        let mut u = self.url.clone();
        u.append("/prompt");
        u
    }

    /// The endpoint that reports the history of prompt `prompt_id`.
    pub fn history_url(&self, prompt_id: &str) -> (r: String)
        ensures
            r@ == self.url@ + "/history/"@ + prompt_id@,
    {
        let mut u = self.url.clone();
        u.append("/history/");
        u.append(prompt_id);
        u
    }

    /// The endpoint that serves the image `image`, its fields URL-encoded.
    pub fn view_url(&self, image: &ImageInfo) -> (r: String)
        ensures
            r@ == view_url_of(self.url@, *image),
    {
        let mut u = self.url.clone();
        u.append("/view?filename=");
        u.append(url_encode(image.filename.as_str()).as_str());
        u.append("&subfolder=");
        u.append(url_encode(image.subfolder.as_str()).as_str());
        u.append("&type=");
        u.append(url_encode(image.image_type.as_str()).as_str());
        u
    }
}

} // verus!
