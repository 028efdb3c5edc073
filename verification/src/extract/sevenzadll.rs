//! Identifiers and value layouts used to talk to the 7-Zip DLL's COM interface.

use vstd::prelude::*;

verus! {

/// A COM class or interface identifier.
#[derive(Clone, Copy, PartialEq, Eq)]
pub struct GUID {
    pub data1: u32,
    pub data2: u16,
    pub data3: u16,
    pub data4: [u8; 8],
}

/// The identifiers of 7-Zip's format handlers share their first three fields and
/// differ in the sixth byte of the fourth: `id` names the format.
pub open spec fn is_handler_clsid(g: GUID, id: u8) -> bool {
    &&& g.data1 == 0x23170F69
    &&& g.data2 == 0x40C1
    &&& g.data3 == 0x278A
    &&& g.data4@ == seq![0x10u8, 0x00u8, 0x00u8, 0x01u8, 0x10u8, id, 0x00u8, 0x00u8]
}

/// The class identifier of 7-Zip's handler for format `id`.
fn handler_clsid(id: u8) -> (g: GUID)
    ensures
        is_handler_clsid(g, id),
{
    let g = GUID {
        data1: 0x23170F69,
        data2: 0x40C1,
        data3: 0x278A,
        data4: [0x10, 0x00, 0x00, 0x01, 0x10, id, 0x00, 0x00],
    };
    assert(g.data4@ =~= seq![0x10u8, 0x00u8, 0x00u8, 0x01u8, 0x10u8, id, 0x00u8, 0x00u8]);
    g
}

/// The class identifier of 7-Zip's ZIP handler.
pub fn clsid_zip_handler() -> (g: GUID)
    ensures
        is_handler_clsid(g, 0x01),
{
    handler_clsid(0x01)
}

/// The class identifier of 7-Zip's RAR handler.
pub fn clsid_rar_handler() -> (g: GUID)
    ensures
        is_handler_clsid(g, 0x03),
{
    handler_clsid(0x03)
}

/// The class identifier of 7-Zip's 7z handler.
pub fn clsid_7z_handler() -> (g: GUID)
    ensures
        is_handler_clsid(g, 0x07),
{
    handler_clsid(0x07)
}

/// The class identifier of 7-Zip's LZMA handler.
pub fn clsid_lzma_handler() -> (g: GUID)
    ensures
        is_handler_clsid(g, 0x0B),
{
    handler_clsid(0x0B)
}

/// The class identifier of 7-Zip's XZ handler.
pub fn clsid_xz_handler() -> (g: GUID)
    ensures
        is_handler_clsid(g, 0x0C),
{
    handler_clsid(0x0C)
}

/// The class identifier of 7-Zip's WIM handler.
pub fn clsid_wim_handler() -> (g: GUID)
    ensures
        is_handler_clsid(g, 0x0E),
{
    handler_clsid(0x0E)
}

/// The class identifier of 7-Zip's VHD handler.
pub fn clsid_vhd_handler() -> (g: GUID)
    ensures
        is_handler_clsid(g, 0x0F),
{
    handler_clsid(0x0F)
}

/// A COM `PROPVARIANT`: a type tag, padding, and eight bytes of value.
pub struct PROPVARIANT {
    pub vt: u16,
    pub _pad: [u16; 3],
    pub data: [u8; 8],
}

impl PROPVARIANT {
    /// An empty value: every field zero.
    pub fn zeroed() -> (p: Self)
        ensures
            p.vt == 0,
            p._pad@ == seq![0u16, 0u16, 0u16],
            p.data@ == seq![0u8, 0u8, 0u8, 0u8, 0u8, 0u8, 0u8, 0u8],
    {
        let p = PROPVARIANT { vt: 0, _pad: [0, 0, 0], data: [0, 0, 0, 0, 0, 0, 0, 0] };
        assert(p._pad@ =~= seq![0u16, 0u16, 0u16]);
        assert(p.data@ =~= seq![0u8, 0u8, 0u8, 0u8, 0u8, 0u8, 0u8, 0u8]);
        p
    }
}

/// Extraction through 7-Zip's DLL, for formats it opens by itself.
pub struct SevenZaDllBackend;

/// Extraction through 7-Zip's DLL with an explicit format handler.
pub struct SevenZaDllBackendWithClsid(pub GUID);

} // verus!
