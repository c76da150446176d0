//! The PBC1 level codec: a compact bit-packed, base64-wrapped text format
//! for boards, decoded with strict validation.

use vstd::prelude::*;

use base64::Engine;

use crate::board::Board;
use crate::element::{Border, Emitters, Manipulator, Particle, Piece, TargetMap, Tile};
use crate::grid::{Grid, GridMap};
use crate::{spec_tint_from_repr, BoardCoords, Dimensions, Tint};

verus! {

/// What base64 decoding of a character sequence yields: the decoded bytes
/// on well-formed standard base64, nothing otherwise. The result depends on
/// the characters alone.
pub uninterp spec fn b64_standard_decode(s: Seq<char>) -> Option<Seq<u8>>;

/// Relies on base64's `STANDARD` engine `decode`: a pure function of the
/// input text that returns the decoded bytes exactly on well-formed
/// standard base64 with padding.
#[verifier::external_body]
fn base64_decode(s: &str) -> (r: Result<Vec<u8>, base64::DecodeError>)
    ensures
        match r {
            Ok(v) => b64_standard_decode(s@) == Some(v@),
            Err(_) => b64_standard_decode(s@) is None,
        },
{
    base64::engine::general_purpose::STANDARD.decode(s)
}

#[verifier::external_type_specification]
#[verifier::external_body]
pub struct ExDecodeError(base64::DecodeError);

/// Relies on str::strip_prefix: `Some` holds the rest of the string exactly
/// when the string starts with the prefix.
#[verifier::external_body]
fn strip_prefix<'a>(s: &'a str, prefix: &str) -> (r: Option<&'a str>)
    ensures
        match r {
            Some(rest) => s@ == prefix@ + rest@,
            None => !(s@.len() >= prefix@.len() && s@.subrange(0, prefix@.len() as int)
                == prefix@),
        },
{
    s.strip_prefix(prefix)
}

/// Why a PBC1 code was rejected; each error is fatal to loading the level.
pub enum Pbc1DecodeError {
    /// The text does not start with the `:PBC1:` signature.
    Signature,
    /// The text after the signature is not valid base64.
    Base64(base64::DecodeError),
    /// The bit stream ended before the layout was complete.
    UnexpectedEnd,
    /// A version other than 1.
    Version(u8),
    /// A piece code outside the defined range.
    InvalidPiece(u8),
    /// A border code outside the defined range.
    InvalidBorder(u8),
}

/// Powers of two, for assembling bit-stream values.
pub open spec fn pow2(n: nat) -> int
    decreases n,
{
    if n == 0 {
        1
    } else {
        2 * pow2((n - 1) as nat)
    }
}

pub proof fn lemma_pow2_values()
    ensures
        pow2(0) == 1,
        pow2(1) == 2,
        pow2(2) == 4,
        pow2(3) == 8,
        pow2(4) == 16,
        pow2(5) == 32,
        pow2(6) == 64,
        pow2(7) == 128,
{
    assert(pow2(0) == 1);
    assert(pow2(1) == 2);
    assert(pow2(2) == 4);
    assert(pow2(3) == 8);
    assert(pow2(4) == 16);
    assert(pow2(5) == 32);
    assert(pow2(6) == 64);
    assert(pow2(7) == 128);
}

/// Bit `i` of a little-endian bit stream: bit `i % 8` of byte `i / 8`,
/// least significant first.
pub open spec fn sp_bit(bytes: Seq<u8>, i: int) -> bool {
    (bytes[i / 8] >> ((i % 8) as u8)) & 1u8 == 1u8
}

/// Value of the `n` bits at position `pos`, least significant bit first.
pub open spec fn sp_bits_value(bytes: Seq<u8>, pos: int, n: nat) -> int
    decreases n,
{
    if n == 0 {
        0
    } else {
        sp_bits_value(bytes, pos, (n - 1) as nat) + if sp_bit(bytes, pos + n - 1) {
            pow2((n - 1) as nat)
        } else {
            0int
        }
    }
}

pub proof fn lemma_bits_value_bound(bytes: Seq<u8>, pos: int, n: nat)
    requires
        n <= 7,
    ensures
        0 <= sp_bits_value(bytes, pos, n) < pow2(n),
        pow2(n) <= 128,
    decreases n,
{
    lemma_pow2_values();
    if n > 0 {
        lemma_bits_value_bound(bytes, pos, (n - 1) as nat);
    }
}

/// Reading `n` bits at `pos`: the value and the new position, or nothing
/// when the stream is too short.
pub open spec fn sp_read(bytes: Seq<u8>, pos: int, n: nat) -> Option<(u8, int)> {
    if 0 <= pos && pos + n <= 8 * bytes.len() {
        Some((sp_bits_value(bytes, pos, n) as u8, pos + n))
    } else {
        None
    }
}

/// Cursor over a little-endian bit stream, least significant bits of each
/// byte first.
pub struct BitReader {
    bytes: Vec<u8>,
    pos: u128,
}

impl BitReader {
    pub closed spec fn spec_bytes(self) -> Seq<u8> {
        self.bytes@
    }

    pub closed spec fn spec_pos(self) -> int {
        self.pos as int
    }

    pub open spec fn wf(self) -> bool {
        0 <= self.spec_pos() <= 8 * self.spec_bytes().len()
    }

    pub fn new(bytes: Vec<u8>) -> (r: BitReader)
        ensures
            r.wf(),
            r.spec_bytes() == bytes@,
            r.spec_pos() == 0,
    {
        BitReader { bytes, pos: 0 }
    }

    /// Read `n` bits (at most 7) as the next value of the stream.
    pub fn read_bits(&mut self, n: usize) -> (r: Option<u8>)
        requires
            old(self).wf(),
            1 <= n <= 7,
        ensures
            final(self).wf(),
            final(self).spec_bytes() == old(self).spec_bytes(),
            r == match sp_read(old(self).spec_bytes(), old(self).spec_pos(), n as nat) {
                Some((v, _)) => Some(v),
                None => None::<u8>,
            },
            final(self).spec_pos() == match sp_read(
                old(self).spec_bytes(),
                old(self).spec_pos(),
                n as nat,
            ) {
                Some((_, p)) => p,
                None => old(self).spec_pos(),
            },
    {
        let byte_len = self.bytes.len();
        if self.pos + (n as u128) > 8 * (byte_len as u128) {
            return None;
        }
        proof {
            lemma_pow2_values();
        }
        let mut acc: u8 = 0;
        let mut k: usize = 0;
        while k < n
            invariant
                self.wf(),
                self == old(self),
                n <= 7,
                k <= n,
                self.spec_bytes().len() == byte_len,
                self.spec_pos() + n <= 8 * self.spec_bytes().len(),
                acc == sp_bits_value(self.spec_bytes(), self.spec_pos(), k as nat),
                acc < pow2(k as nat),
                pow2(k as nat) <= 128,
            decreases n - k,
        {
            proof {
                lemma_pow2_values();
                lemma_bits_value_bound(self.spec_bytes(), self.spec_pos(), k as nat);
            }
            let bit_index = self.pos + (k as u128);
            let byte_index = bit_index / 8;
            proof {
                assert(bit_index as int == self.spec_pos() + k);
                assert((bit_index as int) < 8 * self.spec_bytes().len());
                assert(byte_index as int == (self.spec_pos() + k) / 8);
                vstd::arithmetic::div_mod::lemma_div_is_ordered(
                    bit_index as int,
                    8 * self.spec_bytes().len() - 1,
                    8,
                );
                assert((8 * self.spec_bytes().len() - 1) / 8 < self.spec_bytes().len())
                    by (nonlinear_arith);
                assert(byte_index < self.spec_bytes().len());
                assert(byte_index < byte_len as u128);
            }
            let byte = self.bytes[byte_index as usize];
            let bit = (byte >> ((bit_index % 8) as u8)) & 1u8;
            if bit == 1 {
                acc = acc + pow2_u8(k);
            }
            k = k + 1;
        }
        self.pos = self.pos + (n as u128);
        Some(acc)
    }

    /// Read a single bit.
    pub fn read_bit(&mut self) -> (r: Option<bool>)
        requires
            old(self).wf(),
        ensures
            final(self).wf(),
            final(self).spec_bytes() == old(self).spec_bytes(),
            r == (if old(self).spec_pos() + 1 <= 8 * old(self).spec_bytes().len() {
                Some(sp_bit(old(self).spec_bytes(), old(self).spec_pos()))
            } else {
                None::<bool>
            }),
            final(self).spec_pos() == (if old(self).spec_pos() + 1 <= 8 * old(
                self,
            ).spec_bytes().len() {
                old(self).spec_pos() + 1
            } else {
                old(self).spec_pos()
            }),
    {
        let byte_len = self.bytes.len();
        if self.pos + 1 > 8 * (byte_len as u128) {
            return None;
        }
        let byte_index = self.pos / 8;
        proof {
            assert((self.pos as int) < 8 * self.spec_bytes().len());
            vstd::arithmetic::div_mod::lemma_div_is_ordered(
                self.pos as int,
                8 * self.spec_bytes().len() - 1,
                8,
            );
            assert((8 * self.spec_bytes().len() - 1) / 8 < self.spec_bytes().len())
                by (nonlinear_arith);
            assert(byte_index < self.spec_bytes().len());
        }
        let byte = self.bytes[byte_index as usize];
        let bit = (byte >> ((self.pos % 8) as u8)) & 1u8;
        self.pos = self.pos + 1;
        Some(bit == 1)
    }
}

/// A particle or manipulator as laid out in the code, before any beam
/// target has been computed.
#[derive(Debug, Clone, Copy, PartialEq, Eq, Structural)]
pub enum DecodedPiece {
    Particle(Tint),
    Manipulator(Emitters),
}

/// The raw contents of a decoded level: dimensions and the four grids,
/// each cell in row-major order.
pub ghost struct DecodedLevel {
    pub rows: int,
    pub cols: int,
    pub tiles: Seq<Option<Tile>>,
    pub horz: Seq<Option<Border>>,
    pub vert: Seq<Option<Border>>,
    pub pieces: Seq<Option<DecodedPiece>>,
}

/// What decoding a PBC1 code yields: a level, or the reason it was
/// rejected.
pub ghost enum SpDecode {
    Level(DecodedLevel),
    BadSignature,
    BadBase64,
    UnexpectedEnd,
    BadVersion(u8),
    BadPiece(u8),
    BadBorder(u8),
}

/// One decoding step: the updated level and bit position, or a failure.
pub ghost enum SpStep {
    Next(DecodedLevel, int),
    Fail(SpDecode),
}

/// A level of the given dimensions with all cells empty.
pub open spec fn sp_empty_level(rows: int, cols: int) -> DecodedLevel {
    DecodedLevel {
        rows,
        cols,
        tiles: Seq::new((rows * cols) as nat, |i: int| None),
        horz: Seq::new(((rows + 1) * cols) as nat, |i: int| None),
        vert: Seq::new((rows * (cols + 1)) as nat, |i: int| None),
        pieces: Seq::new((rows * cols) as nat, |i: int| None),
    }
}

/// The tile field of a cell: 3 bits, kind in the upper bit and tint in the
/// lower two.
pub open spec fn sp_cell_tile(bytes: Seq<u8>, pos: int, dv: DecodedLevel, i: int) -> SpStep {
    match sp_read(bytes, pos, 3) {
        None => SpStep::Fail(SpDecode::UnexpectedEnd),
        Some((t, p)) => SpStep::Next(
            DecodedLevel {
                tiles: dv.tiles.update(
                    i,
                    Some(
                        Tile {
                            kind: crate::element::spec_tile_kind_from_repr(t >> 2u8)->Some_0,
                            tint: spec_tint_from_repr(t & 3u8)->Some_0,
                        },
                    ),
                ),
                ..dv
            },
            p,
        ),
    }
}

/// The piece field of a cell: 4 bits, codes 0 to 2 for particles by tint
/// and 3 to 12 for manipulators by emitter layout; anything else is an
/// error.
pub open spec fn sp_cell_piece(bytes: Seq<u8>, pos: int, dv: DecodedLevel, i: int) -> SpStep {
    match sp_read(bytes, pos, 4) {
        None => SpStep::Fail(SpDecode::UnexpectedEnd),
        Some((pc, p)) => if pc < 3 {
            SpStep::Next(
                DecodedLevel {
                    pieces: dv.pieces.update(
                        i,
                        Some(DecodedPiece::Particle(spec_tint_from_repr((pc + 1) as u8)->Some_0)),
                    ),
                    ..dv
                },
                p,
            )
        } else if pc < 13 {
            SpStep::Next(
                DecodedLevel {
                    pieces: dv.pieces.update(
                        i,
                        Some(
                            DecodedPiece::Manipulator(
                                crate::element::spec_emitters_from_repr((pc - 3) as u8)->Some_0,
                            ),
                        ),
                    ),
                    ..dv
                },
                p,
            )
        } else {
            SpStep::Fail(SpDecode::BadPiece(pc))
        },
    }
}

/// The border field of a cell: 3 bits plus one encode a horizontal and a
/// vertical border code in base 3; both slots are overwritten.
pub open spec fn sp_cell_borders(
    bytes: Seq<u8>,
    pos: int,
    dv: DecodedLevel,
    row: int,
    col: int,
) -> SpStep {
    match sp_read(bytes, pos, 3) {
        None => SpStep::Fail(SpDecode::UnexpectedEnd),
        Some((raw, p)) => {
            let v = (raw + 1) as u8;
            let horz_border = if v % 3 == 0 {
                None
            } else if v % 3 == 1 {
                Some(Border::Wall)
            } else {
                Some(Border::Window)
            };
            let dv1 = DecodedLevel { horz: dv.horz.update(row * dv.cols + col, horz_border), ..dv };
            if v / 3 == 0 {
                SpStep::Next(
                    DecodedLevel { vert: dv1.vert.update(row * (dv.cols + 1) + col, None), ..dv1 },
                    p,
                )
            } else if v / 3 == 1 {
                SpStep::Next(
                    DecodedLevel {
                        vert: dv1.vert.update(row * (dv.cols + 1) + col, Some(Border::Wall)),
                        ..dv1
                    },
                    p,
                )
            } else if v / 3 == 2 {
                SpStep::Next(
                    DecodedLevel {
                        vert: dv1.vert.update(row * (dv.cols + 1) + col, Some(Border::Window)),
                        ..dv1
                    },
                    p,
                )
            } else {
                SpStep::Fail(SpDecode::BadBorder(v))
            }
        },
    }
}

/// One cell of the layout: 3 presence bits, then the tile, piece and
/// border fields that are present.
pub open spec fn sp_cell(bytes: Seq<u8>, pos: int, dv: DecodedLevel, row: int, col: int) -> SpStep {
    let i = row * dv.cols + col;
    match sp_read(bytes, pos, 3) {
        None => SpStep::Fail(SpDecode::UnexpectedEnd),
        Some((flags, p0)) => {
            let s1 = if flags & 1u8 != 0 {
                sp_cell_tile(bytes, p0, dv, i)
            } else {
                SpStep::Next(dv, p0)
            };
            match s1 {
                SpStep::Fail(e) => SpStep::Fail(e),
                SpStep::Next(dv1, p1) => {
                    let s2 = if flags & 2u8 != 0 {
                        sp_cell_piece(bytes, p1, dv1, i)
                    } else {
                        SpStep::Next(dv1, p1)
                    };
                    match s2 {
                        SpStep::Fail(e) => SpStep::Fail(e),
                        SpStep::Next(dv2, p2) => if flags & 4u8 != 0 {
                            sp_cell_borders(bytes, p2, dv2, row, col)
                        } else {
                            SpStep::Next(dv2, p2)
                        },
                    }
                },
            }
        },
    }
}

/// All cells from (row, col) on, in row-major order, with the trailing
/// right-edge bit after each row and the bottom-edge bits after the last.
pub open spec fn sp_cells(
    bytes: Seq<u8>,
    pos: int,
    dv: DecodedLevel,
    row: int,
    col: int,
) -> SpDecode
    decreases dv.rows - row, dv.cols + 1 - col,
{
    if row < 0 || col < 0 {
        SpDecode::UnexpectedEnd
    } else if row >= dv.rows {
        sp_bottom(bytes, pos, dv, 0)
    } else if col >= dv.cols {
        match sp_read(bytes, pos, 1) {
            None => SpDecode::UnexpectedEnd,
            Some((bit, p)) => {
                let dv2 = if bit == 1 {
                    DecodedLevel {
                        vert: dv.vert.update(row * (dv.cols + 1) + dv.cols, Some(Border::Wall)),
                        ..dv
                    }
                } else {
                    dv
                };
                sp_cells(bytes, p, dv2, row + 1, 0)
            },
        }
    } else {
        match sp_cell(bytes, pos, dv, row, col) {
            SpStep::Fail(e) => e,
            SpStep::Next(dv2, p2) => sp_cells(bytes, p2, dv2, row, col + 1),
        }
    }
}

/// The trailing bottom-edge bits, one per column.
pub open spec fn sp_bottom(bytes: Seq<u8>, pos: int, dv: DecodedLevel, col: int) -> SpDecode
    decreases dv.cols - col,
{
    if col < 0 {
        SpDecode::UnexpectedEnd
    } else if col >= dv.cols {
        SpDecode::Level(dv)
    } else {
        match sp_read(bytes, pos, 1) {
            None => SpDecode::UnexpectedEnd,
            Some((bit, p)) => {
                let dv2 = if bit == 1 {
                    DecodedLevel {
                        horz: dv.horz.update(dv.rows * dv.cols + col, Some(Border::Wall)),
                        ..dv
                    }
                } else {
                    dv
                };
                sp_bottom(bytes, p, dv2, col + 1)
            },
        }
    }
}

/// Decoding of the byte payload: a 4-bit version that must be 1, 4 ignored
/// flag bits, the column and row counts, then the cell layout.
pub open spec fn sp_decode_bytes(bytes: Seq<u8>) -> SpDecode {
    match sp_read(bytes, 0, 4) {
        None => SpDecode::UnexpectedEnd,
        Some((version, p1)) => if version != 1 {
            SpDecode::BadVersion(version)
        } else {
            match sp_read(bytes, p1, 4) {
                None => SpDecode::UnexpectedEnd,
                Some((_flags, p2)) => match sp_read(bytes, p2, 4) {
                    None => SpDecode::UnexpectedEnd,
                    Some((cols, p3)) => match sp_read(bytes, p3, 4) {
                        None => SpDecode::UnexpectedEnd,
                        Some((rows, p4)) => sp_cells(
                            bytes,
                            p4,
                            sp_empty_level(rows as int, cols as int),
                            0,
                            0,
                        ),
                    },
                },
            }
        },
    }
}

/// Whether the text starts with the `:PBC1:` signature.
pub open spec fn sp_has_signature(s: Seq<char>) -> bool {
    s.len() >= 6 && s.subrange(0, 6) == ":PBC1:"@
}

/// Decoding of the whole text code: signature, base64 payload, bit layout.
pub open spec fn sp_decode_text(s: Seq<char>) -> SpDecode {
    if !sp_has_signature(s) {
        SpDecode::BadSignature
    } else {
        match b64_standard_decode(s.subrange(6, s.len() as int)) {
            None => SpDecode::BadBase64,
            Some(bytes) => sp_decode_bytes(bytes),
        }
    }
}

/// The piece a decoded cell holds right after decoding: a particle of its
/// tint, or a manipulator with no cached targets yet.
pub open spec fn sp_piece_of(dp: Option<DecodedPiece>) -> Option<Piece> {
    match dp {
        None => None,
        Some(DecodedPiece::Particle(t)) => Some(Piece::Particle(Particle { tint: t })),
        Some(DecodedPiece::Manipulator(e)) => Some(
            Piece::Manipulator(
                Manipulator {
                    emitters: e,
                    targets: TargetMap { up: None, left: None, down: None, right: None },
                },
            ),
        ),
    }
}

/// The four grids under construction hold exactly the decoded level.
pub open spec fn sp_grids_match(
    dv: DecodedLevel,
    tiles: GridMap<Tile>,
    horz: GridMap<Border>,
    vert: GridMap<Border>,
    pieces: GridMap<Piece>,
) -> bool {
    &&& tiles@ == dv.tiles
    &&& horz@ == dv.horz
    &&& vert@ == dv.vert
    &&& pieces@.len() == dv.pieces.len()
    &&& forall|i: int|
        0 <= i < dv.pieces.len() ==> pieces@[i] == sp_piece_of(#[trigger] dv.pieces[i])
}

/// Decode one cell of the layout into the grids under construction.
#[verifier::rlimit(30)]
fn decode_cell(
    bits: &mut BitReader,
    tiles: &mut GridMap<Tile>,
    horz_borders: &mut GridMap<Border>,
    vert_borders: &mut GridMap<Border>,
    pieces: &mut GridMap<Piece>,
    rows: usize,
    cols: usize,
    row: usize,
    col: usize,
    Ghost(dv): Ghost<DecodedLevel>,
) -> (r: Result<(), Pbc1DecodeError>)
    requires
        old(bits).wf(),
        rows <= 15,
        cols <= 15,
        row < rows,
        col < cols,
        old(tiles).wf(),
        old(tiles).spec_dims() == (Dimensions { rows, cols }),
        old(horz_borders).wf(),
        old(horz_borders).spec_dims() == (Dimensions { rows: (rows + 1) as usize, cols }),
        old(vert_borders).wf(),
        old(vert_borders).spec_dims() == (Dimensions { rows, cols: (cols + 1) as usize }),
        old(pieces).wf(),
        old(pieces).spec_dims() == (Dimensions { rows, cols }),
        dv.rows == rows,
        dv.cols == cols,
        sp_grids_match(dv, *old(tiles), *old(horz_borders), *old(vert_borders), *old(pieces)),
    ensures
        final(bits).wf(),
        final(bits).spec_bytes() == old(bits).spec_bytes(),
        final(tiles).wf(),
        final(tiles).spec_dims() == old(tiles).spec_dims(),
        final(horz_borders).wf(),
        final(horz_borders).spec_dims() == old(horz_borders).spec_dims(),
        final(vert_borders).wf(),
        final(vert_borders).spec_dims() == old(vert_borders).spec_dims(),
        final(pieces).wf(),
        final(pieces).spec_dims() == old(pieces).spec_dims(),
        ({
            let step = sp_cell(old(bits).spec_bytes(), old(bits).spec_pos(), dv, row as int, col as int);
            match step {
                SpStep::Next(dv2, p2) => {
                    &&& r is Ok
                    &&& final(bits).spec_pos() == p2
                    &&& dv2.rows == rows && dv2.cols == cols
                    &&& sp_grids_match(
                        dv2,
                        *final(tiles),
                        *final(horz_borders),
                        *final(vert_borders),
                        *final(pieces),
                    )
                },
                SpStep::Fail(e) => match r {
                    Err(Pbc1DecodeError::UnexpectedEnd) => e == SpDecode::UnexpectedEnd,
                    Err(Pbc1DecodeError::InvalidPiece(v)) => e == SpDecode::BadPiece(v),
                    Err(Pbc1DecodeError::InvalidBorder(v)) => e == SpDecode::BadBorder(v),
                    _ => false,
                },
            }
        }),
{
    let ghost bytes = bits.spec_bytes();
    let ghost pos0 = bits.spec_pos();
    let c = crate::BoardCoords::new(row, col);
    let ghost i = row as int * dv.cols + col as int;
    proof {
        assert(i == (Dimensions { rows, cols }).spec_index(c));
        crate::lemma_index_in_range(Dimensions { rows, cols }, c);
        crate::lemma_index_in_range(Dimensions { rows: (rows + 1) as usize, cols }, c);
        crate::lemma_index_in_range(Dimensions { rows, cols: (cols + 1) as usize }, c);
    }
    let ghost mut dv_g = dv;

    let flags = match bits.read_bits(3) {
        Some(f) => f,
        None => {
            return Err(Pbc1DecodeError::UnexpectedEnd);
        },
    };

    if flags & 1 != 0 {
        let ghost p_before = bits.spec_pos();
        let t = match bits.read_bits(3) {
            Some(t) => t,
            None => {
                return Err(Pbc1DecodeError::UnexpectedEnd);
            },
        };
        proof {
            lemma_bits_value_bound(bytes, p_before, 3);
            lemma_pow2_values();
            assert(t < 8);
            assert((t >> 2u8) < 2 && (t & 3u8) < 4) by (bit_vector)
                requires
                    t < 8,
            ;
        }
        let kind = crate::element::TileKind::from_repr(t >> 2).unwrap();
        let tint = crate::Tint::from_repr(t & 3).unwrap();
        tiles.set(c, Some(Tile::new(kind, tint)));
        proof {
            dv_g = DecodedLevel {
                tiles: dv_g.tiles.update(i, Some(Tile { kind, tint })),
                ..dv_g
            };
            assert(sp_cell_tile(bytes, p_before, dv, i) == SpStep::Next(dv_g, bits.spec_pos()));
        }
    }
    let ghost dv1 = dv_g;
    let ghost p1 = bits.spec_pos();

    if flags & 2 != 0 {
        let ghost p_before = bits.spec_pos();
        let pc = match bits.read_bits(4) {
            Some(p) => p,
            None => {
                return Err(Pbc1DecodeError::UnexpectedEnd);
            },
        };
        proof {
            lemma_bits_value_bound(bytes, p_before, 4);
            lemma_pow2_values();
            assert(pc < 16);
        }
        if pc < 3 {
            let tint = crate::Tint::from_repr(pc + 1).unwrap();
            let particle = Particle::new(tint);
            pieces.set(c, Some(Piece::Particle(particle)));
            proof {
                assert(particle == Particle { tint });
                dv_g = DecodedLevel {
                    pieces: dv_g.pieces.update(i, Some(DecodedPiece::Particle(tint))),
                    ..dv_g
                };
                assert(sp_cell_piece(bytes, p_before, dv1, i) == SpStep::Next(
                    dv_g,
                    bits.spec_pos(),
                ));
            }
        } else if pc < 13 {
            let emitters = Emitters::from_repr(pc - 3).unwrap();
            let manipulator = Manipulator::new(emitters);
            pieces.set(c, Some(Piece::Manipulator(manipulator)));
            proof {
                assert(manipulator.spec_target(crate::Direction::Up) is None);
                assert(manipulator.spec_target(crate::Direction::Left) is None);
                assert(manipulator.spec_target(crate::Direction::Down) is None);
                assert(manipulator.spec_target(crate::Direction::Right) is None);
                assert(manipulator == Manipulator {
                    emitters,
                    targets: TargetMap { up: None, left: None, down: None, right: None },
                });
                dv_g = DecodedLevel {
                    pieces: dv_g.pieces.update(i, Some(DecodedPiece::Manipulator(emitters))),
                    ..dv_g
                };
                assert(sp_cell_piece(bytes, p_before, dv1, i) == SpStep::Next(
                    dv_g,
                    bits.spec_pos(),
                ));
            }
        } else {
            proof {
                assert(sp_cell_piece(bytes, p_before, dv1, i) == SpStep::Fail(
                    SpDecode::BadPiece(pc),
                ));
            }
            return Err(Pbc1DecodeError::InvalidPiece(pc));
        }
    }
    let ghost dv2 = dv_g;
    let ghost p2 = bits.spec_pos();

    if flags & 4 != 0 {
        let ghost p_before = bits.spec_pos();
        let raw = match bits.read_bits(3) {
            Some(b) => b,
            None => {
                return Err(Pbc1DecodeError::UnexpectedEnd);
            },
        };
        proof {
            lemma_bits_value_bound(bytes, p_before, 3);
            lemma_pow2_values();
            assert(raw < 8);
        }
        let borders = raw + 1;
        let horz = match borders % 3 {
            0 => None,
            1 => Some(Border::Wall),
            _ => Some(Border::Window),
        };
        horz_borders.set(c, horz);
        proof {
            dv_g = DecodedLevel { horz: dv_g.horz.update(i, horz), ..dv_g };
        }
        let vert = match borders / 3 {
            0 => None,
            1 => Some(Border::Wall),
            2 => Some(Border::Window),
            _ => {
                proof {
                    assert(sp_cell_borders(bytes, p_before, dv2, row as int, col as int)
                        == SpStep::Fail(SpDecode::BadBorder(borders)));
                }
                return Err(Pbc1DecodeError::InvalidBorder(borders));
            },
        };
        vert_borders.set(c, vert);
        proof {
            let iv = row as int * (dv.cols + 1) + col as int;
            assert(iv == (Dimensions { rows, cols: (cols + 1) as usize }).spec_index(c));
            dv_g = DecodedLevel { vert: dv_g.vert.update(iv, vert), ..dv_g };
            assert(sp_cell_borders(bytes, p_before, dv2, row as int, col as int) == SpStep::Next(
                dv_g,
                bits.spec_pos(),
            ));
        }
    }
    proof {
        assert(sp_cell(bytes, pos0, dv, row as int, col as int) == SpStep::Next(
            dv_g,
            bits.spec_pos(),
        ));
    }
    Ok(())
}

/// The built board's piece at `c` against the decoded layout: particles as
/// laid out, manipulators with the ray-cast target cached for each emitter
/// direction and nothing cached elsewhere.
pub open spec fn sp_final_piece(
    b: Board,
    c: BoardCoords,
    dp: Option<DecodedPiece>,
    q: Option<Piece>,
) -> bool {
    match dp {
        None => q is None,
        Some(DecodedPiece::Particle(t)) => q == Some(Piece::Particle(Particle { tint: t })),
        Some(DecodedPiece::Manipulator(e)) => match q {
            Some(Piece::Manipulator(m)) => m.emitters == e && forall|d: crate::Direction|
                #[trigger] m.spec_target(d) == (if e.spec_emits(d) {
                    Some(b.sp_beam_target(c, d))
                } else {
                    None::<crate::element::BeamTarget>
                }),
            _ => false,
        },
    }
}

/// Everything decoding promises: on success a well-formed, beam-targeted
/// board laid out exactly as the code says; on failure the error that
/// classifies the code.
pub open spec fn sp_decode_post(s: Seq<char>, r: Result<Board, Pbc1DecodeError>) -> bool {
    let sd = sp_decode_text(s);
    match r {
        Ok(board) => sd matches SpDecode::Level(dv) && {
            &&& board.wf()
            &&& board.targets_ready()
            &&& board.dims.rows == dv.rows
            &&& board.dims.cols == dv.cols
            &&& board.tiles@ == dv.tiles
            &&& board.horz_borders@ == dv.horz
            &&& board.vert_borders@ == dv.vert
            &&& board.pieces@.len() == dv.pieces.len()
            &&& forall|i: int|
                0 <= i < dv.pieces.len() ==> sp_final_piece(
                    board,
                    board.dims.spec_coords(i),
                    dv.pieces[i],
                    #[trigger] board.pieces@[i],
                )
        },
        Err(Pbc1DecodeError::Signature) => sd is BadSignature,
        Err(Pbc1DecodeError::Base64(_)) => sd is BadBase64,
        Err(Pbc1DecodeError::UnexpectedEnd) => sd is UnexpectedEnd,
        Err(Pbc1DecodeError::Version(v)) => sd == SpDecode::BadVersion(v),
        Err(Pbc1DecodeError::InvalidPiece(v)) => sd == SpDecode::BadPiece(v),
        Err(Pbc1DecodeError::InvalidBorder(v)) => sd == SpDecode::BadBorder(v),
    }
}

/// Decode a PBC1 text code into a board with its beams already targeted,
/// or reject it with the exact reason.
#[verifier::rlimit(40)]
pub fn decode(code: &str) -> (r: Result<Board, Pbc1DecodeError>)
    ensures
        sp_decode_post(code@, r),
{
    let rest = match strip_prefix(code, ":PBC1:") {
        Some(rest) => rest,
        None => {
            proof {
                reveal_strlit(":PBC1:");
            }
            return Err(Pbc1DecodeError::Signature);
        },
    };
    proof {
        reveal_strlit(":PBC1:");
        assert(code@.subrange(0, 6) =~= ":PBC1:"@);
        assert(sp_has_signature(code@));
        assert(rest@ =~= code@.subrange(6, code@.len() as int));
    }
    let bytes = match base64_decode(rest) {
        Ok(b) => b,
        Err(e) => {
            return Err(Pbc1DecodeError::Base64(e));
        },
    };
    let ghost bseq = bytes@;
    proof {
        assert(b64_standard_decode(code@.subrange(6, code@.len() as int)) == Some(bseq));
    }
    let mut bits = BitReader::new(bytes);

    let version = match bits.read_bits(4) {
        Some(v) => v,
        None => {
            return Err(Pbc1DecodeError::UnexpectedEnd);
        },
    };
    if version != 1 {
        return Err(Pbc1DecodeError::Version(version));
    }
    let _flags = match bits.read_bits(4) {
        Some(v) => v,
        None => {
            return Err(Pbc1DecodeError::UnexpectedEnd);
        },
    };
    let ghost p_cols = bits.spec_pos();
    let cols_v = match bits.read_bits(4) {
        Some(v) => v,
        None => {
            return Err(Pbc1DecodeError::UnexpectedEnd);
        },
    };
    let ghost p_rows = bits.spec_pos();
    let rows_v = match bits.read_bits(4) {
        Some(v) => v,
        None => {
            return Err(Pbc1DecodeError::UnexpectedEnd);
        },
    };
    proof {
        lemma_bits_value_bound(bseq, p_cols, 4);
        lemma_bits_value_bound(bseq, p_rows, 4);
        lemma_pow2_values();
        assert(cols_v < 16 && rows_v < 16);
    }
    let cols = cols_v as usize;
    let rows = rows_v as usize;

    let mut tiles = GridMap::<Tile>::new(rows, cols);
    let mut horz_borders = GridMap::<Border>::new(rows + 1, cols);
    let mut vert_borders = GridMap::<Border>::new(rows, cols + 1);
    let mut pieces = GridMap::<Piece>::new(rows, cols);
    let ghost mut dv_g = sp_empty_level(rows as int, cols as int);
    proof {
        assert(tiles@ =~= dv_g.tiles);
        assert(horz_borders@ =~= dv_g.horz);
        assert(vert_borders@ =~= dv_g.vert);
        assert forall|i: int| 0 <= i < dv_g.pieces.len() implies pieces@[i] == sp_piece_of(
            #[trigger] dv_g.pieces[i],
        ) by {}
        assert(sp_grids_match(dv_g, tiles, horz_borders, vert_borders, pieces));
    }
    let ghost goal = sp_cells(bseq, bits.spec_pos(), dv_g, 0, 0);
    proof {
        assert(sp_decode_bytes(bseq) == goal);
        assert(sp_decode_text(code@) == goal);
    }

    let mut row: usize = 0;
    while row < rows
        invariant
            bits.wf(),
            bits.spec_bytes() == bseq,
            rows <= 15,
            cols <= 15,
            row <= rows,
            tiles.wf(),
            tiles.spec_dims() == (Dimensions { rows, cols }),
            horz_borders.wf(),
            horz_borders.spec_dims() == (Dimensions { rows: (rows + 1) as usize, cols }),
            vert_borders.wf(),
            vert_borders.spec_dims() == (Dimensions { rows, cols: (cols + 1) as usize }),
            pieces.wf(),
            pieces.spec_dims() == (Dimensions { rows, cols }),
            dv_g.rows == rows,
            dv_g.cols == cols,
            sp_grids_match(dv_g, tiles, horz_borders, vert_borders, pieces),
            sp_cells(bseq, bits.spec_pos(), dv_g, row as int, 0) == goal,
            sp_decode_text(code@) == goal,
        decreases rows - row,
    {
        let mut col: usize = 0;
        while col < cols
            invariant
                bits.wf(),
                bits.spec_bytes() == bseq,
                rows <= 15,
                cols <= 15,
                row < rows,
                col <= cols,
                tiles.wf(),
                tiles.spec_dims() == (Dimensions { rows, cols }),
                horz_borders.wf(),
                horz_borders.spec_dims() == (Dimensions { rows: (rows + 1) as usize, cols }),
                vert_borders.wf(),
                vert_borders.spec_dims() == (Dimensions { rows, cols: (cols + 1) as usize }),
                pieces.wf(),
                pieces.spec_dims() == (Dimensions { rows, cols }),
                dv_g.rows == rows,
                dv_g.cols == cols,
                sp_grids_match(dv_g, tiles, horz_borders, vert_borders, pieces),
                sp_cells(bseq, bits.spec_pos(), dv_g, row as int, col as int) == goal,
                sp_decode_text(code@) == goal,
            decreases cols - col,
        {
            let ghost pos_before = bits.spec_pos();
            let ghost dv_before = dv_g;
            match decode_cell(
                &mut bits,
                &mut tiles,
                &mut horz_borders,
                &mut vert_borders,
                &mut pieces,
                rows,
                cols,
                row,
                col,
                Ghost(dv_g),
            ) {
                Ok(_u) => {},
                Err(e) => {
                    return Err(e);
                },
            }
            proof {
                let step = sp_cell(bseq, pos_before, dv_before, row as int, col as int);
                dv_g = step->Next_0;
            }
            col = col + 1;
        }
        let ghost pos_before = bits.spec_pos();
        let ghost dv_before = dv_g;
        let edge = match bits.read_bit() {
            Some(b) => b,
            None => {
                return Err(Pbc1DecodeError::UnexpectedEnd);
            },
        };
        proof {
            lemma_pow2_values();
            assert(sp_bits_value(bseq, pos_before, 0) == 0);
            assert(sp_bits_value(bseq, pos_before, 1) == (if sp_bit(bseq, pos_before) {
                1int
            } else {
                0int
            }));
        }
        if edge {
            vert_borders.set(BoardCoords::new(row, cols), Some(Border::Wall));
            proof {
                crate::lemma_index_in_range(
                    Dimensions { rows, cols: (cols + 1) as usize },
                    BoardCoords { row, col: cols },
                );
                dv_g = DecodedLevel {
                    vert: dv_g.vert.update(
                        row as int * (dv_g.cols + 1) + dv_g.cols,
                        Some(Border::Wall),
                    ),
                    ..dv_g
                };
            }
        }
        proof {
            assert(sp_cells(bseq, pos_before, dv_before, row as int, cols as int) == sp_cells(
                bseq,
                bits.spec_pos(),
                dv_g,
                row as int + 1,
                0,
            ));
        }
        row = row + 1;
    }

    let mut col: usize = 0;
    while col < cols
        invariant
            bits.wf(),
            bits.spec_bytes() == bseq,
            rows <= 15,
            cols <= 15,
            col <= cols,
            tiles.wf(),
            tiles.spec_dims() == (Dimensions { rows, cols }),
            horz_borders.wf(),
            horz_borders.spec_dims() == (Dimensions { rows: (rows + 1) as usize, cols }),
            vert_borders.wf(),
            vert_borders.spec_dims() == (Dimensions { rows, cols: (cols + 1) as usize }),
            pieces.wf(),
            pieces.spec_dims() == (Dimensions { rows, cols }),
            dv_g.rows == rows,
            dv_g.cols == cols,
            sp_grids_match(dv_g, tiles, horz_borders, vert_borders, pieces),
            sp_bottom(bseq, bits.spec_pos(), dv_g, col as int) == goal,
            sp_decode_text(code@) == goal,
        decreases cols - col,
    {
        let ghost pos_before = bits.spec_pos();
        let ghost dv_before = dv_g;
        let edge = match bits.read_bit() {
            Some(b) => b,
            None => {
                return Err(Pbc1DecodeError::UnexpectedEnd);
            },
        };
        proof {
            lemma_pow2_values();
            assert(sp_bits_value(bseq, pos_before, 0) == 0);
            assert(sp_bits_value(bseq, pos_before, 1) == (if sp_bit(bseq, pos_before) {
                1int
            } else {
                0int
            }));
        }
        if edge {
            horz_borders.set(BoardCoords::new(rows, col), Some(Border::Wall));
            proof {
                crate::lemma_index_in_range(
                    Dimensions { rows: (rows + 1) as usize, cols },
                    BoardCoords { row: rows, col },
                );
                dv_g = DecodedLevel {
                    horz: dv_g.horz.update(dv_g.rows * dv_g.cols + col as int, Some(Border::Wall)),
                    ..dv_g
                };
            }
        }
        proof {
            assert(sp_bottom(bseq, pos_before, dv_before, col as int) == sp_bottom(
                bseq,
                bits.spec_pos(),
                dv_g,
                col as int + 1,
            ));
        }
        col = col + 1;
    }
    proof {
        assert(goal == SpDecode::Level(dv_g));
    }

    let mut board = Board {
        dims: Dimensions::new(rows, cols),
        tiles,
        horz_borders,
        vert_borders,
        pieces,
    };
    let ghost b0 = board;
    board.retarget_beams();
    proof {
        assert forall|i: int|
            0 <= i < b0.pieces@.len() implies (#[trigger] b0.pieces@[i] is Some
            <==> board.pieces@[i] is Some) by {
            crate::lemma_coords_of_index(b0.dims, i);
            let c = b0.dims.spec_coords(i);
            assert(b0.sp_retargeted_piece(c, b0.pieces@[i], board.pieces@[i]));
        }
        assert forall|i: int| 0 <= i < dv_g.pieces.len() implies sp_final_piece(
            board,
            board.dims.spec_coords(i),
            dv_g.pieces[i],
            #[trigger] board.pieces@[i],
        ) by {
            crate::lemma_coords_of_index(board.dims, i);
            let c = board.dims.spec_coords(i);
            assert(b0.sp_retargeted_piece(c, b0.pieces@[i], board.pieces@[i]));
            assert(b0.pieces@[i] == sp_piece_of(dv_g.pieces[i]));
            match dv_g.pieces[i] {
                Some(DecodedPiece::Manipulator(e)) => {
                    assert forall|d: crate::Direction| true implies #[trigger] b0.sp_beam_target(
                        c,
                        d,
                    ) == board.sp_beam_target(c, d) by {
                        b0.lemma_beam_target_congruent(board, c, d);
                    }
                },
                _ => {},
            }
        }
    }
    Ok(board)
}

impl Board {
    /// Build a board from a PBC1 text code.
    pub fn from_pbc1(code: &str) -> (r: Result<Board, Pbc1DecodeError>)
        ensures
            sp_decode_post(code@, r),
    {
        decode(code)
    }
}

fn pow2_u8(k: usize) -> (r: u8)
    requires
        k <= 6,
    ensures
        r == pow2(k as nat),
{
    proof {
        lemma_pow2_values();
    }
    match k {
        0 => 1,
        1 => 2,
        2 => 4,
        3 => 8,
        4 => 16,
        5 => 32,
        _ => 64,
    }
}

} // verus!
