//! The keywords of the LDraw meta-commands, as ASCII bytes.

use vstd::prelude::*;

verus! {

/// "!CATEGORY"
pub const CATEGORY: [u8; 9] = [33, 67, 65, 84, 69, 71, 79, 82, 89];

/// "!KEYWORDS"
pub const KEYWORDS: [u8; 9] = [33, 75, 69, 89, 87, 79, 82, 68, 83];

/// "!COLOUR"
pub const COLOUR: [u8; 7] = [33, 67, 79, 76, 79, 85, 82];

/// "CODE"
pub const CODE: [u8; 4] = [67, 79, 68, 69];

/// "VALUE"
pub const VALUE: [u8; 5] = [86, 65, 76, 85, 69];

/// "EDGE"
pub const EDGE: [u8; 4] = [69, 68, 71, 69];

/// "ALPHA"
pub const ALPHA: [u8; 5] = [65, 76, 80, 72, 65];

/// "LUMINANCE"
pub const LUMINANCE: [u8; 9] = [76, 85, 77, 73, 78, 65, 78, 67, 69];

/// "SIZE"
pub const SIZE: [u8; 4] = [83, 73, 90, 69];

/// "MINSIZE"
pub const MINSIZE: [u8; 7] = [77, 73, 78, 83, 73, 90, 69];

/// "MAXSIZE"
pub const MAXSIZE: [u8; 7] = [77, 65, 88, 83, 73, 90, 69];

/// "GLITTER"
pub const GLITTER: [u8; 7] = [71, 76, 73, 84, 84, 69, 82];

/// "FRACTION"
pub const FRACTION: [u8; 8] = [70, 82, 65, 67, 84, 73, 79, 78];

/// "VFRACTION"
pub const VFRACTION: [u8; 9] = [86, 70, 82, 65, 67, 84, 73, 79, 78];

/// "SPECKLE"
pub const SPECKLE: [u8; 7] = [83, 80, 69, 67, 75, 76, 69];

/// "MATERIAL"
pub const MATERIAL: [u8; 8] = [77, 65, 84, 69, 82, 73, 65, 76];

/// "CHROME"
pub const CHROME: [u8; 6] = [67, 72, 82, 79, 77, 69];

/// "PEARLESCENT"
pub const PEARLESCENT: [u8; 11] = [80, 69, 65, 82, 76, 69, 83, 67, 69, 78, 84];

/// "RUBBER"
pub const RUBBER: [u8; 6] = [82, 85, 66, 66, 69, 82];

/// "MATTE_METALLIC"
pub const MATTE_METALLIC: [u8; 14] = [77, 65, 84, 84, 69, 95, 77, 69, 84, 65, 76, 76, 73, 67];

/// "METAL"
pub const METAL: [u8; 5] = [77, 69, 84, 65, 76];

/// "FILE"
pub const FILE: [u8; 4] = [70, 73, 76, 69];

/// "!DATA"
pub const DATA: [u8; 5] = [33, 68, 65, 84, 65];

/// "!:"
pub const BASE64_DATA: [u8; 2] = [33, 58];

/// "NOFILE"
pub const NOFILE: [u8; 6] = [78, 79, 70, 73, 76, 69];

/// "#", before a colour's hexadecimal digits
pub const HASH: [u8; 1] = [35];

} // verus!
