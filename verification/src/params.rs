use vstd::prelude::*;
use crate::blur::BlurParams;
use crate::mirror::MirrorParams;

verus! {

/// How reading a plugin's parameters went.  A plugin given no parameters reads
/// them from the empty text, which is not valid JSON.
pub enum ParamsRead<P> {
    /// The parameters text is not valid UTF-8.
    NotUtf8,
    /// The text is valid UTF-8 but not JSON for the parameters.
    Unparsable,
    /// The parameters as read; a field missing from the JSON has its
    /// default value.
    Parsed(P),
}

/// The blur parameters to use: none at all when the text is not UTF-8 (the
/// frame is then left alone), the defaults when the text cannot be parsed,
/// and otherwise those read.
pub fn blur_params_from(read: ParamsRead<BlurParams>) -> (params: Option<BlurParams>)
    ensures
        params == match read {
            ParamsRead::NotUtf8 => None,
            ParamsRead::Unparsable => Some(BlurParams { radius: 3, iterations: 1 }),
            ParamsRead::Parsed(p) => Some(p),
        },
{
    match read {
        ParamsRead::NotUtf8 => None,
        ParamsRead::Unparsable => Some(BlurParams::default()),
        ParamsRead::Parsed(p) => Some(p),
    }
}

/// The mirror parameters to use: none at all when the text is not UTF-8 (the
/// frame is then left alone), no flip when the text cannot be parsed, and
/// otherwise those read.
pub fn mirror_params_from(read: ParamsRead<MirrorParams>) -> (params: Option<MirrorParams>)
    ensures
        params == match read {
            ParamsRead::NotUtf8 => None,
            ParamsRead::Unparsable => Some(MirrorParams { horizontal: false, vertical: false }),
            ParamsRead::Parsed(p) => Some(p),
        },
{
    match read {
        ParamsRead::NotUtf8 => None,
        ParamsRead::Unparsable => Some(MirrorParams::default()),
        ParamsRead::Parsed(p) => Some(p),
    }
}

} // verus!
