//! The commands that cross the mailbox, and their framing as text inside the
//! payload bytes.
use vstd::prelude::*;
use vstd::utf8::*;

use crate::text::{
    all_ascii, before_nul, decode_all, find_nul, is_utf8, join, lemma_ascii_bounded,
    lemma_nul_end, lemma_split_join, nul_end, occurs_at, separable, split, split_text, views,
};

verus! {

/// Number of bytes in the separator token.
pub const DELIM_LEN: usize = 9;

/// The separator token `##DELIM##` that stands between the fields of a frame.
pub open spec fn delim() -> Seq<u8> {
    seq![35u8, 35u8, 68u8, 69u8, 76u8, 73u8, 77u8, 35u8, 35u8]
}

/// Builds the separator token.
pub fn delim_bytes() -> (r: Vec<u8>)
    ensures
        r@ == delim(),
        r@.len() == DELIM_LEN,
{
    let r = vec![35u8, 35u8, 68u8, 69u8, 76u8, 73u8, 77u8, 35u8, 35u8];
    assert(r@ =~= delim());
    r
}

/// A command that one side of the mailbox hands to the other.
#[derive(Clone, Debug, PartialEq, Eq)]
pub enum Command {
    /// Load the texture found at `path`.
    LoadTexture { path: String },
    /// Build a material from its uniform declarations, texture descriptions and
    /// the bodies of its two shader functions.
    Compile {
        uniform_types: String,
        texture_descs: String,
        world_offset_expr: String,
        frag_color_expr: String,
    },
    /// Set the uniform `name` to `value`, written as four comma-separated numbers.
    UpdateUniform { name: String, value: String },
    /// A command under a name this side does not know; it is ignored.
    Unknown(String),
}

/// A command as its texts.
pub enum CommandView {
    LoadTexture { path: Seq<char> },
    Compile {
        uniform_types: Seq<char>,
        texture_descs: Seq<char>,
        world_offset_expr: Seq<char>,
        frag_color_expr: Seq<char>,
    },
    UpdateUniform { name: Seq<char>, value: Seq<char> },
    Unknown(Seq<char>),
}

impl View for Command {
    type V = CommandView;

    open spec fn view(&self) -> CommandView {
        match self {
            Command::LoadTexture { path } => CommandView::LoadTexture { path: path@ },
            Command::Compile { uniform_types, texture_descs, world_offset_expr, frag_color_expr } =>
                CommandView::Compile {
                uniform_types: uniform_types@,
                texture_descs: texture_descs@,
                world_offset_expr: world_offset_expr@,
                frag_color_expr: frag_color_expr@,
            },
            Command::UpdateUniform { name, value } => CommandView::UpdateUniform {
                name: name@,
                value: value@,
            },
            Command::Unknown(name) => CommandView::Unknown(name@),
        }
    }
}

/// Why a payload could not be read as a command.
#[derive(Clone, Copy, Debug, PartialEq, Eq)]
pub enum DecodeError {
    /// The payload bytes are not valid UTF-8.
    InvalidEncoding,
    /// The command lacks one of the fields its name calls for.
    MissingField,
}

/// Why a command could not be written into a payload.
#[derive(Clone, Copy, Debug, PartialEq, Eq)]
pub enum EncodeError {
    /// The frame is longer than the payload area.
    TooLarge,
}

/// The name of the texture-loading command.
pub open spec fn load_texture_name() -> Seq<char> {
    "load_texture"@
}

/// The name of the material-building command.
pub open spec fn compile_name() -> Seq<char> {
    "compile"@
}

/// The name of the uniform-setting command.
pub open spec fn update_uniform_name() -> Seq<char> {
    "update_uniform"@
}

/// The texts a command travels as: its name, then its fields in order.
pub open spec fn texts_of(c: CommandView) -> Seq<Seq<char>> {
    match c {
        CommandView::LoadTexture { path } => seq![load_texture_name(), path],
        CommandView::Compile { uniform_types, texture_descs, world_offset_expr, frag_color_expr } =>
            seq![
            compile_name(),
            uniform_types,
            texture_descs,
            world_offset_expr,
            frag_color_expr,
        ],
        CommandView::UpdateUniform { name, value } => seq![update_uniform_name(), name, value],
        CommandView::Unknown(name) => seq![name],
    }
}

/// The UTF-8 bytes of each text.
pub open spec fn encode_all(ts: Seq<Seq<char>>) -> Seq<Seq<u8>> {
    ts.map_values(|t: Seq<char>| encode_utf8(t))
}

/// The frame of a command: its texts in UTF-8, joined by the separator.
pub open spec fn frame_of(c: CommandView) -> Seq<u8> {
    join(encode_all(texts_of(c)), delim())
}

/// What the texts of a frame mean. Fields beyond those a command calls for
/// are ignored.
pub open spec fn interpret(ts: Seq<Seq<char>>) -> Result<CommandView, DecodeError> {
    let name = ts[0];
    if name == load_texture_name() {
        if ts.len() < 2 {
            Err(DecodeError::MissingField)
        } else {
            Ok(CommandView::LoadTexture { path: ts[1] })
        }
    } else if name == compile_name() {
        if ts.len() < 5 {
            Err(DecodeError::MissingField)
        } else {
            Ok(
                CommandView::Compile {
                    uniform_types: ts[1],
                    texture_descs: ts[2],
                    world_offset_expr: ts[3],
                    frag_color_expr: ts[4],
                },
            )
        }
    } else if name == update_uniform_name() {
        if ts.len() < 3 {
            Err(DecodeError::MissingField)
        } else {
            Ok(CommandView::UpdateUniform { name: ts[1], value: ts[2] })
        }
    } else {
        Ok(CommandView::Unknown(name))
    }
}

/// What a payload decodes to: the whole payload must be UTF-8; its text up to
/// the first NUL is split at the separator and read by `interpret`.
pub open spec fn decode_spec(payload: Seq<u8>) -> Result<CommandView, DecodeError> {
    if !valid_utf8(payload) {
        Err(DecodeError::InvalidEncoding)
    } else {
        interpret(decode_all(split(before_nul(payload), delim())))
    }
}

/// `n` zero bytes.
pub open spec fn zeros(n: nat) -> Seq<u8> {
    Seq::new(n, |i: int| 0u8)
}

/// The payload that a command is written as, in a payload area of `len` bytes:
/// its frame, then NUL padding.
pub open spec fn encode_spec(c: CommandView, len: nat) -> Result<Seq<u8>, EncodeError> {
    if frame_of(c).len() > len {
        Err(EncodeError::TooLarge)
    } else {
        Ok(frame_of(c) + zeros((len - frame_of(c).len()) as nat))
    }
}

/// A text can travel as one field: it holds no NUL, and no separator begins
/// inside it, not even one completed by the separator that follows it.
pub open spec fn is_field_text(t: Seq<char>) -> bool {
    &&& separable(encode_utf8(t), delim())
    &&& !encode_utf8(t).contains(0u8)
}

/// A command that survives the trip through a frame: every field can travel,
/// and an unknown command's name is none of the known ones.
pub open spec fn is_valid(c: CommandView) -> bool {
    &&& forall|k: int| 1 <= k < texts_of(c).len() ==> is_field_text(#[trigger] texts_of(c)[k])
    &&& match c {
        CommandView::Unknown(name) => {
            &&& is_field_text(name)
            &&& name != load_texture_name()
            &&& name != compile_name()
            &&& name != update_uniform_name()
        },
        _ => true,
    }
}

/// Joining one more piece puts the separator and the piece at the end.
proof fn lemma_join_push(ps: Seq<Seq<u8>>, p: Seq<u8>, sep: Seq<u8>)
    requires
        ps.len() >= 1,
    ensures
        join(ps.push(p), sep) == join(ps, sep) + sep + p,
    decreases ps.len(),
{
    let qs = ps.push(p);
    if ps.len() == 1 {
        assert(qs.drop_first() =~= seq![p]);
        assert(join(qs, sep) == ps[0] + sep + join(qs.drop_first(), sep));
    } else {
        assert(qs.drop_first() =~= ps.drop_first().push(p));
        lemma_join_push(ps.drop_first(), p, sep);
        assert(join(qs, sep) =~= join(ps, sep) + sep + p);
    }
}

/// Appends `b` to `out`.
fn append_bytes(out: &mut Vec<u8>, b: &[u8])
    ensures
        final(out)@ == old(out)@ + b@,
{
    let mut i: usize = 0;
    while i < b.len()
        invariant
            i <= b@.len(),
            out@ == old(out)@ + b@.subrange(0, i as int),
        decreases b@.len() - i,
    {
        out.push(b[i]);
        i = i + 1;
        assert(out@ =~= old(out)@ + b@.subrange(0, i as int));
    }
    assert(b@.subrange(0, i as int) =~= b@);
}

impl Command {
    /// The name this command travels under, then its fields in order.
    pub fn texts(&self) -> (r: Vec<&str>)
        ensures
            r@.map_values(|t: &str| t@) == texts_of(self@),
    {
        let r = match self {
            Command::LoadTexture { path } => vec!["load_texture", path.as_str()],
            Command::Compile { uniform_types, texture_descs, world_offset_expr, frag_color_expr } =>
                vec![
                "compile",
                uniform_types.as_str(),
                texture_descs.as_str(),
                world_offset_expr.as_str(),
                frag_color_expr.as_str(),
            ],
            Command::UpdateUniform { name, value } => vec![
                "update_uniform",
                name.as_str(),
                value.as_str(),
            ],
            Command::Unknown(name) => vec![name.as_str()],
        };
        assert(r@.map_values(|t: &str| t@) =~= texts_of(self@));
        r
    }
}

/// The frame of a command: its name and fields in UTF-8, joined by the separator.
pub fn encode_frame(c: &Command) -> (r: Vec<u8>)
    ensures
        r@ == frame_of(c@),
{
    let ts = c.texts();
    let ghost tv = ts@.map_values(|t: &str| t@);
    let ghost enc = encode_all(tv);
    let d = delim_bytes();
    let mut out: Vec<u8> = Vec::new();
    append_bytes(&mut out, ts[0].as_bytes());
    assert(enc.take(1) =~= seq![enc[0]]);
    let mut i: usize = 1;
    while i < ts.len()
        invariant
            1 <= i <= ts@.len(),
            tv == ts@.map_values(|t: &str| t@),
            enc == encode_all(tv),
            d@ == delim(),
            out@ == join(enc.take(i as int), delim()),
        decreases ts@.len() - i,
    {
        append_bytes(&mut out, d.as_slice());
        append_bytes(&mut out, ts[i].as_bytes());
        proof {
            assert(enc.take(i + 1) =~= enc.take(i as int).push(enc[i as int]));
            lemma_join_push(enc.take(i as int), enc[i as int], delim());
        }
        i = i + 1;
    }
    assert(enc.take(i as int) =~= enc);
    out
}

/// Writes the frame of `c` and NUL padding into a payload area of `len` bytes,
/// or reports that the frame does not fit.
pub fn encode(c: &Command, len: usize) -> (r: Result<Vec<u8>, EncodeError>)
    ensures
        match r {
            Ok(p) => encode_spec(c@, len as nat) == Ok::<Seq<u8>, EncodeError>(p@),
            Err(e) => encode_spec(c@, len as nat) == Err::<Seq<u8>, EncodeError>(e),
        },
{
    let mut out = encode_frame(c);
    if out.len() > len {
        return Err(EncodeError::TooLarge);
    }
    let ghost f = out@;
    while out.len() < len
        invariant
            f.len() <= out@.len() <= len,
            out@ == f + zeros((out@.len() - f.len()) as nat),
        decreases len - out@.len(),
    {
        out.push(0u8);
        assert(out@ =~= f + zeros((out@.len() - f.len()) as nat));
    }
    Ok(out)
}

/// Reads the texts of a frame as a command; see `interpret`.
pub fn interpret_texts(ts: &Vec<String>) -> (r: Result<Command, DecodeError>)
    requires
        ts@.len() >= 1,
    ensures
        match r {
            Ok(c) => interpret(views(ts@)) == Ok::<CommandView, DecodeError>(c@),
            Err(e) => interpret(views(ts@)) == Err::<CommandView, DecodeError>(e),
        },
{
    let n = ts.len();
    let name = &ts[0];
    assert(views(ts@)[0] == ts@[0]@);
    if *name == "load_texture".to_owned() {
        if n < 2 {
            Err(DecodeError::MissingField)
        } else {
            assert(views(ts@)[1] == ts@[1]@);
            Ok(Command::LoadTexture { path: ts[1].clone() })
        }
    } else if *name == "compile".to_owned() {
        if n < 5 {
            Err(DecodeError::MissingField)
        } else {
            assert(views(ts@)[1] == ts@[1]@);
            assert(views(ts@)[2] == ts@[2]@);
            assert(views(ts@)[3] == ts@[3]@);
            assert(views(ts@)[4] == ts@[4]@);
            Ok(
                Command::Compile {
                    uniform_types: ts[1].clone(),
                    texture_descs: ts[2].clone(),
                    world_offset_expr: ts[3].clone(),
                    frag_color_expr: ts[4].clone(),
                },
            )
        }
    } else if *name == "update_uniform".to_owned() {
        if n < 3 {
            Err(DecodeError::MissingField)
        } else {
            assert(views(ts@)[1] == ts@[1]@);
            assert(views(ts@)[2] == ts@[2]@);
            Ok(Command::UpdateUniform { name: ts[1].clone(), value: ts[2].clone() })
        }
    } else {
        Ok(Command::Unknown(name.clone()))
    }
}

/// Reads the command held in a payload: the whole payload must be UTF-8, the
/// frame ends at the first NUL, and its fields stand between separators.
pub fn decode(payload: &[u8]) -> (r: Result<Command, DecodeError>)
    ensures
        match r {
            Ok(c) => decode_spec(payload@) == Ok::<CommandView, DecodeError>(c@),
            Err(e) => decode_spec(payload@) == Err::<CommandView, DecodeError>(e),
        },
{
    if !is_utf8(payload) {
        return Err(DecodeError::InvalidEncoding);
    }
    let end = find_nul(payload);
    proof {
        crate::text::lemma_nul_end_bounds(payload@);
        lemma_ascii_bounded(payload@, 0, end as int);
    }
    let text = vstd::slice::slice_subrange(payload, 0, end);
    let d = delim_bytes();
    assert(all_ascii(d@));
    let ts = split_text(text, d.as_slice());
    proof {
        crate::text::lemma_split_from_nonempty(text@, delim(), 0, 0);
        assert(decode_all(split(text@, delim())).len() == split(text@, delim()).len());
        assert(views(ts@).len() == ts@.len());
    }
    interpret_texts(&ts)
}

/// Bytes that are all ASCII are valid UTF-8.
proof fn lemma_ascii_valid(s: Seq<u8>)
    requires
        all_ascii(s),
    ensures
        valid_utf8(s),
{
    assert(s.subrange(0, 0) =~= Seq::<u8>::empty());
    assert forall|i: int| 0 <= i < s.len() implies is_leading_byte_width_1(#[trigger] s[i]) by {
        assert(s[i] < 0x80);
    }
    vstd::utf8::partial_valid_utf8_extend_ascii_block(s, 0, s.len() as int);
    assert(s.subrange(0, s.len() as int) =~= s);
}

/// Joining valid UTF-8 with a valid UTF-8 separator gives valid UTF-8.
proof fn lemma_join_valid(ps: Seq<Seq<u8>>, sep: Seq<u8>)
    requires
        valid_utf8(sep),
        forall|k: int| 0 <= k < ps.len() ==> valid_utf8(#[trigger] ps[k]),
    ensures
        valid_utf8(join(ps, sep)),
    decreases ps.len(),
{
    if ps.len() == 0 {
        assert(join(ps, sep) =~= Seq::<u8>::empty());
    } else if ps.len() > 1 {
        let rest = ps.drop_first();
        assert forall|k: int| 0 <= k < rest.len() implies valid_utf8(#[trigger] rest[k]) by {
            assert(rest[k] == ps[k + 1]);
        }
        lemma_join_valid(rest, sep);
        assert(valid_utf8(ps[0]));
        vstd::utf8::valid_utf8_concat(ps[0], sep);
        vstd::utf8::valid_utf8_concat(ps[0] + sep, join(rest, sep));
    }
}

/// Joining pieces without zero bytes, with a separator without zero bytes,
/// gives bytes without zero bytes.
proof fn lemma_join_no_nul(ps: Seq<Seq<u8>>, sep: Seq<u8>)
    requires
        !sep.contains(0u8),
        forall|k: int| 0 <= k < ps.len() ==> !(#[trigger] ps[k]).contains(0u8),
    ensures
        !join(ps, sep).contains(0u8),
    decreases ps.len(),
{
    if ps.len() > 1 {
        let rest = ps.drop_first();
        assert forall|k: int| 0 <= k < rest.len() implies !(#[trigger] rest[k]).contains(0u8) by {
            assert(rest[k] == ps[k + 1]);
        }
        lemma_join_no_nul(rest, sep);
        let j = join(ps, sep);
        let a = ps[0];
        let r = join(rest, sep);
        assert(!a.contains(0u8));
        assert(j =~= a + sep + r);
        if j.contains(0u8) {
            let i = choose|i: int| 0 <= i < j.len() && j[i] == 0u8;
            if i < a.len() {
                assert(a[i] == 0u8);
            } else if i < a.len() + sep.len() {
                assert(sep[i - a.len()] == 0u8);
            } else {
                assert(r[i - a.len() - sep.len()] == 0u8);
            }
        }
    } else if ps.len() == 1 {
        assert(!ps[0].contains(0u8));
    }
}

/// An ASCII text without `#` and without NUL can travel as a field.
proof fn lemma_plain_field(t: Seq<char>)
    requires
        is_ascii_chars(t),
        forall|i: int| 0 <= i < t.len() ==> #[trigger] t[i] != '#' && t[i] != '\0',
    ensures
        is_field_text(t),
{
    let b = encode_utf8(t);
    vstd::utf8::is_ascii_chars_encode_utf8(t);
    assert(b =~= Seq::new(t.len(), |i: int| t[i] as u8));
    assert forall|i: int| 0 <= i < b.len() implies #[trigger] b[i] != 35u8 && b[i] != 0u8 by {
        assert(b[i] == t[i] as u8);
    }
    assert forall|i: int| 0 <= i < b.len() implies !#[trigger] occurs_at(b + delim(), delim(), i) by {
        if occurs_at(b + delim(), delim(), i) {
            assert((b + delim())[i] == (b + delim()).subrange(i, i + 9)[0]);
            assert((b + delim())[i] == b[i]);
        }
    }
}

/// The known command names can travel as fields and differ from one another.
pub proof fn lemma_names()
    ensures
        is_field_text(load_texture_name()),
        is_field_text(compile_name()),
        is_field_text(update_uniform_name()),
        load_texture_name() != compile_name(),
        load_texture_name() != update_uniform_name(),
        compile_name() != update_uniform_name(),
{
    reveal_strlit("load_texture");
    reveal_strlit("compile");
    reveal_strlit("update_uniform");
    lemma_plain_field(load_texture_name());
    lemma_plain_field(compile_name());
    lemma_plain_field(update_uniform_name());
}

/// The frame built from texts that can all travel is UTF-8, holds no NUL,
/// and splits back into the texts' bytes.
pub proof fn lemma_frame_of_texts(ts: Seq<Seq<char>>)
    requires
        ts.len() >= 1,
        forall|k: int| 0 <= k < ts.len() ==> is_field_text(#[trigger] ts[k]),
    ensures
        valid_utf8(join(encode_all(ts), delim())),
        !join(encode_all(ts), delim()).contains(0u8),
        decode_all(split(join(encode_all(ts), delim()), delim())) == ts,
{
    broadcast use vstd::utf8::encode_utf8_valid_utf8, vstd::utf8::encode_utf8_decode_utf8;

    let enc = encode_all(ts);
    assert(all_ascii(delim()));
    lemma_ascii_valid(delim());
    assert forall|k: int| 0 <= k < enc.len() implies valid_utf8(#[trigger] enc[k]) by {
        assert(enc[k] == encode_utf8(ts[k]));
    }
    lemma_join_valid(enc, delim());
    assert(!delim().contains(0u8)) by {
        if delim().contains(0u8) {
            let i = choose|i: int| 0 <= i < delim().len() && delim()[i] == 0u8;
        }
    }
    assert forall|k: int| 0 <= k < enc.len() implies !(#[trigger] enc[k]).contains(0u8) by {
        assert(enc[k] == encode_utf8(ts[k]));
        assert(is_field_text(ts[k]));
    }
    lemma_join_no_nul(enc, delim());
    assert forall|k: int| 0 <= k < enc.len() implies separable(#[trigger] enc[k], delim()) by {
        assert(enc[k] == encode_utf8(ts[k]));
        assert(is_field_text(ts[k]));
    }
    lemma_split_join(enc, delim());
    assert forall|k: int| 0 <= k < ts.len() implies decode_all(enc)[k] == ts[k] by {
        assert(enc[k] == encode_utf8(ts[k]));
    }
    assert(decode_all(enc) =~= ts);
}

/// The payload built from a frame without NUL decodes as the frame does.
pub proof fn lemma_padded_frame(f: Seq<u8>, n: nat)
    requires
        valid_utf8(f),
        !f.contains(0u8),
    ensures
        valid_utf8(f + zeros(n)),
        before_nul(f + zeros(n)) == f,
{
    let z = zeros(n);
    let p = f + z;
    assert(all_ascii(z));
    lemma_ascii_valid(z);
    vstd::utf8::valid_utf8_concat(f, z);
    assert forall|j: int| 0 <= j < f.len() implies p[j] != 0 by {
        assert(p[j] == f[j]);
        if f[j] == 0 {
            assert(f.contains(0u8));
        }
    }
    lemma_nul_end(p, f.len() as int);
    assert(before_nul(p) =~= f);
}

/// Decoding undoes encoding: a valid command written into a payload area that
/// its frame fits decodes to the same command.
pub proof fn lemma_round_trip(c: CommandView, len: nat)
    requires
        is_valid(c),
        frame_of(c).len() <= len,
    ensures
        encode_spec(c, len) is Ok,
        decode_spec(encode_spec(c, len)->Ok_0) == Ok::<CommandView, DecodeError>(c),
{
    lemma_names();
    let ts = texts_of(c);
    let f = frame_of(c);
    let p = f + zeros((len - f.len()) as nat);
    assert(encode_spec(c, len) == Ok::<Seq<u8>, EncodeError>(p));
    assert forall|k: int| 0 <= k < ts.len() implies is_field_text(#[trigger] ts[k]) by {
        if k == 0 {
            assert(ts[0] == texts_of(c)[0]);
        }
    }
    lemma_frame_of_texts(ts);
    lemma_padded_frame(f, (len - f.len()) as nat);
    assert(decode_spec(p) == interpret(ts));
}

/// A `load_texture` frame that stops after the name lacks its path: it is
/// rejected for the missing field.
pub proof fn lemma_load_texture_without_path(n: nat)
    ensures
        valid_utf8(encode_utf8(load_texture_name()) + zeros(n)),
        nul_end(encode_utf8(load_texture_name()) + zeros(n)) == encode_utf8(
            load_texture_name(),
        ).len(),
        encode_utf8(load_texture_name()).len() > 0,
        decode_spec(encode_utf8(load_texture_name()) + zeros(n)) == Err::<CommandView, DecodeError>(
            DecodeError::MissingField,
        ),
{
    lemma_names();
    let ts = seq![load_texture_name()];
    let f = encode_utf8(load_texture_name());
    assert(encode_all(ts) =~= seq![f]);
    assert(join(encode_all(ts), delim()) == f);
    lemma_frame_of_texts(ts);
    lemma_padded_frame(f, n);
    crate::text::lemma_nul_end_bounds(f + zeros(n));
    reveal_strlit("load_texture");
    vstd::utf8::is_ascii_chars_encode_utf8(load_texture_name());
    assert(f.len() == 12);
    let p = f + zeros(n);
    assert(nul_end(p) == f.len()) by {
        lemma_nul_end(p, f.len() as int);
        assert forall|j: int| 0 <= j < f.len() implies p[j] != 0 by {
            assert(p[j] == f[j]);
            if f[j] == 0 {
                assert(f.contains(0u8));
            }
        }
    }
}

/// An encoded payload fills the payload area exactly.
pub proof fn lemma_encode_len(c: CommandView, len: nat)
    ensures
        encode_spec(c, len) matches Ok(p) ==> p.len() == len,
{
}

/// The separator between the four numbers of an `update_uniform` value: `,`.
pub open spec fn comma() -> Seq<u8> {
    seq![44u8]
}

/// The comma-separated parts of an `update_uniform` value, as written. The
/// value is well formed when there are exactly four; reading each part as a
/// number is left to the receiver.
pub fn uniform_components(value: &str) -> (r: Option<Vec<String>>)
    ensures
        r is Some <==> split(encode_utf8(value@), comma()).len() == 4,
        r matches Some(v) ==> views(v@) == decode_all(split(encode_utf8(value@), comma())),
{
    broadcast use vstd::utf8::encode_utf8_valid_utf8;

    let bytes = value.as_bytes();
    let sep = vec![44u8];
    assert(sep@ =~= comma());
    assert(all_ascii(sep@));
    let parts = split_text(bytes, sep.as_slice());
    assert(views(parts@).len() == parts@.len());
    if parts.len() == 4 {
        Some(parts)
    } else {
        None
    }
}

} // verus!
