//! Decoding of the controller's STATUS payload.
//!
//! Layout: 25 fixed bytes (protocol version, Wi-Fi mode, brightness, three RGB
//! colours, speed and direction as little-endian `f32` bit patterns, grid
//! width and height, little-endian pixel count, sensitivity), then the effect
//! name and the palette name, each prefixed by its length byte, then an
//! optional panel topology: a count byte followed by (x, y) pairs.
use vstd::prelude::*;
use crate::text::{utf8_lossy, lossy_text};

verus! {

/// Size of the fixed part of a STATUS payload.
pub const STATUS_FIXED_SIZE: usize = 25;

/// Position of one panel in the multi-panel grid.
#[derive(Debug, Clone, Copy, PartialEq, Eq, Structural)]
pub struct PanelPosition {
    pub grid_x: u8,
    pub grid_y: u8,
}

/// The controller state reported in a STATUS message. `speed_bits` and
/// `direction_bits` are the IEEE-754 bit patterns of the controller's `f32`
/// speed and direction.
#[derive(Debug, Clone)]
pub struct DeviceStatus {
    pub protocol_ver: u8,
    pub wifi_mode: String,
    pub brightness: u8,
    pub color_r: u8,
    pub color_g: u8,
    pub color_b: u8,
    pub color2_r: u8,
    pub color2_g: u8,
    pub color2_b: u8,
    pub color3_r: u8,
    pub color3_g: u8,
    pub color3_b: u8,
    pub speed_bits: u32,
    pub direction_bits: u32,
    pub grid_width: u8,
    pub grid_height: u8,
    pub num_pixels: u16,
    pub sensitivity: u8,
    pub effect: String,
    pub palette: String,
    pub panels: Vec<PanelPosition>,
}

/// Mathematical model of a [`DeviceStatus`]: its strings as character
/// sequences and its panels as a sequence.
pub struct StatusModel {
    pub protocol_ver: u8,
    pub wifi_mode: Seq<char>,
    pub brightness: u8,
    pub colors: Seq<u8>,
    pub speed_bits: u32,
    pub direction_bits: u32,
    pub grid_width: u8,
    pub grid_height: u8,
    pub num_pixels: u16,
    pub sensitivity: u8,
    pub effect: Seq<char>,
    pub palette: Seq<char>,
    pub panels: Seq<PanelPosition>,
}

impl View for DeviceStatus {
    type V = StatusModel;

    open spec fn view(&self) -> StatusModel {
        StatusModel {
            protocol_ver: self.protocol_ver,
            wifi_mode: self.wifi_mode@,
            brightness: self.brightness,
            colors: seq![
                self.color_r, self.color_g, self.color_b,
                self.color2_r, self.color2_g, self.color2_b,
                self.color3_r, self.color3_g, self.color3_b,
            ],
            speed_bits: self.speed_bits,
            direction_bits: self.direction_bits,
            grid_width: self.grid_width,
            grid_height: self.grid_height,
            num_pixels: self.num_pixels,
            sensitivity: self.sensitivity,
            effect: self.effect@,
            palette: self.palette@,
            panels: self.panels@,
        }
    }
}

/// Why a STATUS payload was rejected.
#[derive(Debug, Clone, Copy, PartialEq, Eq, Structural)]
pub enum StatusError {
    TooShort,
    MissingEffectName,
    EffectNameTruncated,
    MissingPaletteName,
    PaletteNameTruncated,
}

/// The text that each [`StatusError`] is reported with.
pub open spec fn status_error_text(e: StatusError) -> Seq<char> {
    match e {
        StatusError::TooShort => "STATUS payload too short"@,
        StatusError::MissingEffectName => "Missing effect name"@,
        StatusError::EffectNameTruncated => "Effect name truncated"@,
        StatusError::MissingPaletteName => "Missing palette name"@,
        StatusError::PaletteNameTruncated => "Palette name truncated"@,
    }
}

impl StatusError {
    /// The message that reports this error.
    pub fn message(&self) -> (out: String)
        ensures
            out@ == status_error_text(*self),
    {
        match self {
            StatusError::TooShort => String::from_str("STATUS payload too short"),
            StatusError::MissingEffectName => String::from_str("Missing effect name"),
            StatusError::EffectNameTruncated => String::from_str("Effect name truncated"),
            StatusError::MissingPaletteName => String::from_str("Missing palette name"),
            StatusError::PaletteNameTruncated => String::from_str("Palette name truncated"),
        }
    }
}

/// Little-endian 16-bit integer at `at`.
pub open spec fn le_u16(p: Seq<u8>, at: int) -> u16 {
    (p[at] + 256 * p[at + 1]) as u16
}

/// Little-endian 32-bit integer at `at`.
pub open spec fn le_u32(p: Seq<u8>, at: int) -> u32 {
    (p[at] + 256 * p[at + 1] + 65536 * p[at + 2] + 16777216 * p[at + 3]) as u32
}

/// Name of the Wi-Fi mode flag: 0 is station mode, anything else access point.
pub open spec fn wifi_mode_name(flag: u8) -> Seq<char> {
    if flag == 0 {
        "STA"@
    } else {
        "AP"@
    }
}

/// Number of panel entries read from a topology that announces `announced`
/// panels and has `available` bytes left after its count byte: a truncated
/// last entry ends the list.
pub open spec fn panel_count(announced: int, available: int) -> int {
    if announced <= available / 2 {
        announced
    } else {
        available / 2
    }
}

/// The `i`-th (x, y) pair of a topology whose entries begin at `start`.
pub open spec fn panel_at(p: Seq<u8>, start: int, i: int) -> PanelPosition {
    PanelPosition { grid_x: p[start + 2 * i], grid_y: p[start + 2 * i + 1] }
}

/// The panel entries read from the topology whose count byte is at `at`.
pub open spec fn panel_entries(p: Seq<u8>, at: int) -> Seq<PanelPosition> {
    let start = at + 1;
    Seq::new(
        panel_count(p[at] as int, p.len() - start) as nat,
        |i: int| panel_at(p, start, i),
    )
}

/// The panel topology: read from the count byte at `at` where the payload
/// goes on, else the controller alone at (0, 0).
pub open spec fn panels_from(p: Seq<u8>, at: int) -> Seq<PanelPosition> {
    if at < p.len() {
        panel_entries(p, at)
    } else {
        seq![PanelPosition { grid_x: 0, grid_y: 0 }]
    }
}

/// What a STATUS payload decodes to.
pub open spec fn status_of(p: Seq<u8>) -> Result<StatusModel, StatusError> {
    if p.len() < 25 {
        Err(StatusError::TooShort)
    } else if p.len() == 25 {
        Err(StatusError::MissingEffectName)
    } else {
        let elen = p[25] as int;
        let pos = 26 + elen;
        if pos > p.len() {
            Err(StatusError::EffectNameTruncated)
        } else if pos >= p.len() {
            Err(StatusError::MissingPaletteName)
        } else {
            let plen = p[pos] as int;
            let topo = pos + 1 + plen;
            if topo > p.len() {
                Err(StatusError::PaletteNameTruncated)
            } else {
                Ok(StatusModel {
                    protocol_ver: p[0],
                    wifi_mode: wifi_mode_name(p[1]),
                    brightness: p[2],
                    colors: p.subrange(3, 12),
                    speed_bits: le_u32(p, 12),
                    direction_bits: le_u32(p, 16),
                    grid_width: p[20],
                    grid_height: p[21],
                    num_pixels: le_u16(p, 22),
                    sensitivity: p[24],
                    effect: utf8_lossy(p.subrange(26, pos)),
                    palette: utf8_lossy(p.subrange(pos + 1, topo)),
                    panels: panels_from(p, topo),
                })
            }
        }
    }
}

fn read_le_u32(p: &[u8], at: usize) -> (out: u32)
    requires
        at + 4 <= p@.len(),
    ensures
        out == le_u32(p@, at as int),
{
    let b0: u32 = p[at] as u32;
    let b1: u32 = p[at + 1] as u32;
    let b2: u32 = p[at + 2] as u32;
    let b3: u32 = p[at + 3] as u32;
    b0 + 256 * b1 + 65536 * b2 + 16777216 * b3
}

fn read_panels(p: &[u8], at: usize) -> (out: Vec<PanelPosition>)
    requires
        at < p@.len(),
    ensures
        out@ == panel_entries(p@, at as int),
{
    let len = p.len();
    let num_panels: u8 = p[at];
    let mut offset: usize = at + 1;
    let mut panels: Vec<PanelPosition> = Vec::new();
    let mut k: u8 = 0;
    let ghost start = at + 1;
    while k < num_panels
        invariant_except_break
            k <= num_panels,
        invariant
            len == p@.len(),
            at < len,
            num_panels == p@[at as int],
            start == at + 1,
            offset == start + 2 * k,
            offset <= len,
            k <= num_panels,
            panels@.len() == k,
            forall|i: int| 0 <= i < k ==> #[trigger] panels@[i] == panel_at(p@, start, i),
        ensures
            panels@.len() == panel_count(num_panels as int, len - start),
            forall|i: int| 0 <= i < panels@.len() ==> #[trigger] panels@[i] == panel_at(p@, start, i),
        decreases num_panels - k,
    {
        if len - offset < 2 {
            break;
        }
        panels.push(PanelPosition { grid_x: p[offset], grid_y: p[offset + 1] });
        offset = offset + 2;
        k = k + 1;
    }
    assert(panels@ =~= panel_entries(p@, at as int));
    panels
}

/// Decodes a STATUS payload.
pub fn parse_status(payload: &[u8]) -> (out: Result<DeviceStatus, StatusError>)
    ensures
        match out {
            Ok(s) => status_of(payload@) == Ok::<StatusModel, StatusError>(s@),
            Err(e) => status_of(payload@) == Err::<StatusModel, StatusError>(e),
        },
{
    let len = payload.len();
    if len < STATUS_FIXED_SIZE {
        return Err(StatusError::TooShort);
    }
    let speed_bits = read_le_u32(payload, 12);
    let direction_bits = read_le_u32(payload, 16);
    let num_pixels: u16 = payload[22] as u16 + 256 * (payload[23] as u16);

    let mut offset: usize = STATUS_FIXED_SIZE;
    if offset >= len {
        return Err(StatusError::MissingEffectName);
    }
    let ename_len: usize = payload[offset] as usize;
    offset = offset + 1;
    if offset + ename_len > len {
        return Err(StatusError::EffectNameTruncated);
    }
    let effect = lossy_text(vstd::slice::slice_subrange(payload, offset, offset + ename_len));
    offset = offset + ename_len;

    if offset >= len {
        return Err(StatusError::MissingPaletteName);
    }
    let pname_len: usize = payload[offset] as usize;
    offset = offset + 1;
    if offset + pname_len > len {
        return Err(StatusError::PaletteNameTruncated);
    }
    let palette = lossy_text(vstd::slice::slice_subrange(payload, offset, offset + pname_len));
    offset = offset + pname_len;

    let panels = if offset < len {
        read_panels(payload, offset)
    } else {
        let mut v: Vec<PanelPosition> = Vec::new();
        v.push(PanelPosition { grid_x: 0, grid_y: 0 });
        v
    };

    let wifi_mode = if payload[1] == 0 {
        String::from_str("STA")
    } else {
        String::from_str("AP")
    };

    let status = DeviceStatus {
        protocol_ver: payload[0],
        wifi_mode,
        brightness: payload[2],
        color_r: payload[3],
        color_g: payload[4],
        color_b: payload[5],
        color2_r: payload[6],
        color2_g: payload[7],
        color2_b: payload[8],
        color3_r: payload[9],
        color3_g: payload[10],
        color3_b: payload[11],
        speed_bits,
        direction_bits,
        grid_width: payload[20],
        grid_height: payload[21],
        num_pixels,
        sensitivity: payload[24],
        effect,
        palette,
        panels,
    };
    assert(status@.colors =~= payload@.subrange(3, 12));
    assert(status@.panels =~= panels_from(payload@, offset as int));
    Ok(status)
}

/// A STATUS payload laid out from its parts: the fixed bytes, the effect
/// name and the palette name each after its length byte, then the topology
/// bytes.
pub open spec fn status_payload(fixed: Seq<u8>, effect: Seq<u8>, palette: Seq<u8>, topology: Seq<u8>) -> Seq<u8> {
    fixed + seq![effect.len() as u8] + effect + seq![palette.len() as u8] + palette + topology
}

/// What the STATUS payload laid out from these parts decodes to, where it
/// decodes.
pub open spec fn decoded_status(fixed: Seq<u8>, effect: Seq<u8>, palette: Seq<u8>, topology: Seq<u8>) -> StatusModel {
    status_of(status_payload(fixed, effect, palette, topology))->Ok_0
}

/// A STATUS payload with a topology decodes: its names are the bytes after
/// their length bytes, and its panels are the first `min(count, n / 2)`
/// (x, y) pairs of the `n` bytes after the count byte, in order; a truncated
/// last pair is dropped.
pub proof fn lemma_status_topology(
    fixed: Seq<u8>,
    effect: Seq<u8>,
    palette: Seq<u8>,
    count: u8,
    pairs: Seq<u8>,
)
    requires
        fixed.len() == 25,
        effect.len() < 256,
        palette.len() < 256,
    ensures
        status_of(status_payload(fixed, effect, palette, seq![count] + pairs)) is Ok,
        decoded_status(fixed, effect, palette, seq![count] + pairs).effect == utf8_lossy(effect),
        decoded_status(fixed, effect, palette, seq![count] + pairs).palette == utf8_lossy(palette),
        decoded_status(fixed, effect, palette, seq![count] + pairs).panels.len() == (if 2 * count
            <= pairs.len() {
            count as int
        } else {
            pairs.len() as int / 2
        }),
        forall|i: int|
            0 <= i < decoded_status(fixed, effect, palette, seq![count] + pairs).panels.len()
                ==> #[trigger] decoded_status(fixed, effect, palette, seq![count] + pairs).panels[i]
                == (PanelPosition { grid_x: pairs[2 * i], grid_y: pairs[2 * i + 1] }),
{
    let p = status_payload(fixed, effect, palette, seq![count] + pairs);
    let el = effect.len() as int;
    let pl = palette.len() as int;
    let pos = 26 + el;
    let topo = pos + 1 + pl;
    assert(p.len() == topo + 1 + pairs.len());
    assert(p[25] == el);
    assert(p.subrange(26, pos) =~= effect);
    assert(p[pos] == pl);
    assert(p.subrange(pos + 1, topo) =~= palette);
    assert(p[topo] == count);
    let st = status_of(p)->Ok_0;
    assert(st.panels == panel_entries(p, topo));
    assert forall|i: int| 0 <= i < st.panels.len() implies #[trigger] st.panels[i] == (PanelPosition {
        grid_x: pairs[2 * i],
        grid_y: pairs[2 * i + 1],
    }) by {
        assert(p[topo + 1 + 2 * i] == pairs[2 * i]);
        assert(p[topo + 1 + 2 * i + 1] == pairs[2 * i + 1]);
    }
}

/// A STATUS payload that ends after the palette name reports the controller
/// alone at (0, 0).
pub proof fn lemma_status_without_topology(fixed: Seq<u8>, effect: Seq<u8>, palette: Seq<u8>)
    requires
        fixed.len() == 25,
        effect.len() < 256,
        palette.len() < 256,
    ensures
        status_of(status_payload(fixed, effect, palette, Seq::empty())) is Ok,
        decoded_status(fixed, effect, palette, Seq::empty()).panels == seq![
            PanelPosition { grid_x: 0, grid_y: 0 },
        ],
{
    let p = status_payload(fixed, effect, palette, Seq::empty());
    let el = effect.len() as int;
    let pl = palette.len() as int;
    let pos = 26 + el;
    assert(p.len() == pos + 1 + pl);
    assert(p[25] == el);
    assert(p[pos] == pl);
}

} // verus!
