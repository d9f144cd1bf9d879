# h263

A verified library for H.263 video: it decodes pictures, reads and writes the
syntax around them, packs streams for RTP, and models the rate of an encoder.
Everything under `src/` is checked by Verus; each function's contract says what
it returns for every input, down to the samples of a decoded picture and the
error of each malformed stream.

Bits are read and written by the `oxideav-core` crate. `src/bits.rs` states what
is relied on: a reader is a sequence of bits and a position in it, a writer is
the sequence of bits written so far. Nothing else is taken without proof.

## Layout

| Modules | Content |
| --- | --- |
| `bits`, `vlc`, `error` | bit fields, prefix codes, the error type |
| `picture_header`, `plus_ptype`, `gob_header`, `slice`, `slice_header` | headers of pictures, groups of blocks and slices |
| `macroblock`, `macroblock_layer`, `pb_layer`, `block`, `block_layer` | macroblock and block syntax |
| `motion`, `b_picture`, `residual` | prediction and reconstruction of blocks |
| `deblock`, `rru_filter`, `upsample`, `rru_upsample`, `scal_upsample` | edge filters and interpolation |
| `picture` | decoding of whole pictures, PB-frames and slices |
| `sac` | syntax-based arithmetic coding |
| `scalability` | macroblock headers of B-pictures and enhancement layers |
| `sei` | supplemental enhancement information |
| `rtp` | RTP payloads, current and historic |
| `rate_control` | the reference decoder's buffer and a quantiser controller |

## How contracts are written

A parser's result is given by a spec function from the bits and a position to
the value and the position behind it, or to an error; `bits::read_as` ties an
executable parser to it. A decoded picture is a spec function of the bits, the
reference picture and the options.

Properties that span functions are public proof functions with plain names, such
as `rtp::depacketizing_inverts_packetizing`, `sac::inverse::decoding_inverts_encoding`,
`sei::parsing_loses_nothing` or
`picture::repetition::skipped_pictures_repeat_the_reference`.

Numbers of bits written by one arithmetic coder, and the sizes of planes, are
bounded where machine integers bound them; the `requires` clauses say so.
