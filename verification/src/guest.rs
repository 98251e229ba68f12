//! What the host keeps for a running WebAssembly plugin: its output
//! buffer and resource limits, the checks on guest memory, and how a
//! guest call's result is read.

use vstd::prelude::*;

use crate::attachment::lines_from;
use crate::error::ParcError;
use crate::plugin::PluginManifest;
use crate::text::{
    chars_of, concat3, decimal, find_char_at, lemma_find_from_bounds, push_decimal, push_str, slice_vec,
    string_of, texts,
};

verus! {

/// Hard cap on the bytes a plugin can hand back through the output buffer.
pub const MAX_PLUGIN_OUTPUT_BYTES: usize = 1048576;

/// Hard cap on a plugin instance's linear memory: 64 MiB.
pub const MAX_PLUGIN_MEMORY_BYTES: usize = 67108864;

/// Hard cap on a plugin instance's table size.
pub const MAX_PLUGIN_TABLE_ELEMENTS: usize = 100000;

/// The resource limits of a plugin instance.
#[derive(Debug, Clone, Copy)]
pub struct PluginLimits;

impl PluginLimits {
    /// Whether linear memory may grow to `desired` bytes.
    pub fn memory_growing(&self, desired: usize) -> (b: bool)
        ensures
            b == (desired <= MAX_PLUGIN_MEMORY_BYTES),
    {
        desired <= MAX_PLUGIN_MEMORY_BYTES
    }

    /// Whether a table may grow to `desired` elements.
    pub fn table_growing(&self, desired: usize) -> (b: bool)
        ensures
            b == (desired <= MAX_PLUGIN_TABLE_ELEMENTS),
    {
        desired <= MAX_PLUGIN_TABLE_ELEMENTS
    }
}

/// The functions a plugin may import from the host (module `parc_host`).
#[derive(Debug, Clone, Copy, PartialEq, Eq)]
pub enum HostCall {
    Output,
    Log,
    FragmentGet,
    FragmentSearch,
    FragmentList,
    FragmentCreate,
    FragmentUpdate,
}

/// The name a plugin imports a host function by.
pub open spec fn host_call_name(c: HostCall) -> Seq<char> {
    match c {
        HostCall::Output => "parc_host_output"@,
        HostCall::Log => "parc_host_log"@,
        HostCall::FragmentGet => "parc_host_fragment_get"@,
        HostCall::FragmentSearch => "parc_host_fragment_search"@,
        HostCall::FragmentList => "parc_host_fragment_list"@,
        HostCall::FragmentCreate => "parc_host_fragment_create"@,
        HostCall::FragmentUpdate => "parc_host_fragment_update"@,
    }
}

/// Whether a plugin with these capabilities may make a host call:
/// reading fragments (get, search, list) needs `read_fragments`, writing
/// them (create, update) `write_fragments`; output and logging are open
/// to every plugin.
pub open spec fn host_call_allowed(c: HostCall, read: bool, write: bool) -> bool {
    match c {
        HostCall::Output | HostCall::Log => true,
        HostCall::FragmentGet | HostCall::FragmentSearch | HostCall::FragmentList => read,
        HostCall::FragmentCreate | HostCall::FragmentUpdate => write,
    }
}

impl HostCall {
    /// The name a plugin imports this function by.
    pub fn import_name(&self) -> (r: &'static str)
        ensures
            r@ == host_call_name(*self),
    {
        match self {
            HostCall::Output => "parc_host_output",
            HostCall::Log => "parc_host_log",
            HostCall::FragmentGet => "parc_host_fragment_get",
            HostCall::FragmentSearch => "parc_host_fragment_search",
            HostCall::FragmentList => "parc_host_fragment_list",
            HostCall::FragmentCreate => "parc_host_fragment_create",
            HostCall::FragmentUpdate => "parc_host_fragment_update",
        }
    }
}

/// What the host keeps for one plugin instance.
#[derive(Debug)]
pub struct PluginState {
    pub manifest: PluginManifest,
    pub output_buffer: Vec<u8>,
    pub output_truncated: bool,
    pub vault_path: String,
    pub config_json: String,
    pub limits: PluginLimits,
}

/// The text `String::from_utf8_lossy` makes of some bytes.
pub uninterp spec fn lossy_text(bytes: Seq<u8>) -> Seq<char>;

/// `String::from_utf8_lossy`, named `lossy_text`.
#[verifier::external_body]
fn utf8_lossy(bytes: &[u8]) -> (r: String)
    ensures
        r@ == lossy_text(bytes@),
{
    String::from_utf8_lossy(bytes).to_string()
}

/// The message of an output that went over the cap.
pub open spec fn output_overflow_message() -> Seq<char> {
    "plugin output exceeded "@ + decimal(MAX_PLUGIN_OUTPUT_BYTES as nat) + " bytes"@
}

impl PluginState {
    /// Whether this plugin's manifest lets it make a host call.
    pub fn permits(&self, call: HostCall) -> (r: bool)
        ensures
            r == host_call_allowed(
                call,
                self.manifest.capabilities.read_fragments,
                self.manifest.capabilities.write_fragments,
            ),
    {
        match call {
            HostCall::Output | HostCall::Log => true,
            HostCall::FragmentGet | HostCall::FragmentSearch | HostCall::FragmentList => {
                self.manifest.capabilities.read_fragments
            },
            HostCall::FragmentCreate | HostCall::FragmentUpdate => self.manifest.capabilities.write_fragments,
        }
    }

    /// A fresh state for a plugin: empty output.
    pub fn new(manifest: PluginManifest, vault_path: String, config_json: String) -> (s: PluginState)
        ensures
            s.manifest == manifest,
            s.output_buffer@.len() == 0,
            !s.output_truncated,
            s.vault_path == vault_path,
            s.config_json == config_json,
    {
        PluginState {
            manifest,
            output_buffer: Vec::new(),
            output_truncated: false,
            vault_path,
            config_json,
            limits: PluginLimits,
        }
    }

    /// Empty the output, and forget an earlier overflow.
    pub fn clear_output(&mut self)
        ensures
            final(self).output_buffer@.len() == 0,
            !final(self).output_truncated,
            final(self).manifest == old(self).manifest,
            final(self).vault_path == old(self).vault_path,
            final(self).config_json == old(self).config_json,
    {
        self.output_buffer = Vec::new();
        self.output_truncated = false;
    }

    /// Append to the output up to the cap; `false` (and the overflow
    /// noted) when the bytes did not all fit.
    pub fn append_output(&mut self, bytes: &[u8]) -> (fit: bool)
        ensures
            ({
                let before = old(self).output_buffer@;
                let room = if before.len() >= MAX_PLUGIN_OUTPUT_BYTES {
                    0
                } else {
                    MAX_PLUGIN_OUTPUT_BYTES - before.len()
                };
                &&& fit == (bytes@.len() <= room)
                &&& final(self).output_buffer@ == if fit {
                    before + bytes@
                } else {
                    before + bytes@.subrange(0, room)
                }
                &&& final(self).output_truncated == (old(self).output_truncated || !fit)
            }),
            final(self).manifest == old(self).manifest,
            final(self).vault_path == old(self).vault_path,
            final(self).config_json == old(self).config_json,
    {
        let len = self.output_buffer.len();
        let room: usize = if len >= MAX_PLUGIN_OUTPUT_BYTES {
            0
        } else {
            MAX_PLUGIN_OUTPUT_BYTES - len
        };
        let fit = bytes.len() <= room;
        let take = if fit {
            bytes.len()
        } else {
            room
        };
        let ghost before = self.output_buffer@;
        let ghost st0 = *self;
        let mut i: usize = 0;
        while i < take
            invariant
                i <= take <= bytes@.len(),
                self.output_buffer@ == before + bytes@.subrange(0, i as int),
                self.output_truncated == st0.output_truncated,
                self.manifest == st0.manifest,
                self.vault_path == st0.vault_path,
                self.config_json == st0.config_json,
            decreases take - i,
        {
            self.output_buffer.push(bytes[i]);
            assert(bytes@.subrange(0, i + 1) =~= bytes@.subrange(0, i as int).push(bytes@[i as int]));
            i = i + 1;
        }
        assert(bytes@.subrange(0, bytes@.len() as int) =~= bytes@);
        if !fit {
            self.output_truncated = true;
        }
        fit
    }

    /// Replace the output with `bytes`: their length, or `None` when they
    /// do not fit under the cap.
    pub fn replace_output(&mut self, bytes: &[u8]) -> (r: Option<i32>)
        ensures
            bytes@.len() <= MAX_PLUGIN_OUTPUT_BYTES ==> r == Some(bytes@.len() as i32)
                && final(self).output_buffer@ == bytes@ && !final(self).output_truncated,
            bytes@.len() > MAX_PLUGIN_OUTPUT_BYTES ==> r.is_none() && final(self).output_buffer@
                == bytes@.subrange(0, MAX_PLUGIN_OUTPUT_BYTES as int) && final(self).output_truncated,
            final(self).manifest == old(self).manifest,
    {
        self.clear_output();
        assert(Seq::<u8>::empty() + bytes@ =~= bytes@);
        assert(forall|k: int| Seq::<u8>::empty() + bytes@.subrange(0, k) =~= bytes@.subrange(0, k));
        if !self.append_output(bytes) {
            return None;
        }
        Some(bytes.len() as i32)
    }

    /// The output as text, refused when it overflowed.
    pub fn output_string(&self) -> (r: Result<String, ParcError>)
        ensures
            self.output_truncated ==> (r matches Err(ParcError::PluginError(m)) && m@ == output_overflow_message()),
            !self.output_truncated ==> (r matches Ok(s) && s@ == lossy_text(self.output_buffer@)),
    {
        if self.output_truncated {
            let mut m = chars_of("plugin output exceeded ");
            push_decimal(&mut m, MAX_PLUGIN_OUTPUT_BYTES);
            push_str(&mut m, " bytes");
            return Err(ParcError::PluginError(string_of(&m)));
        }
        Ok(utf8_lossy(self.output_buffer.as_slice()))
    }

    /// What a host call hands back to the guest: the output becomes
    /// `bytes` and their length is returned, when they fit under the cap;
    /// otherwise the output keeps only what fits, the overflow is noted,
    /// and the call fails with `-1`.
    pub fn set_host_output(&mut self, bytes: &[u8]) -> (r: i32)
        ensures
            bytes@.len() <= MAX_PLUGIN_OUTPUT_BYTES ==> r == bytes@.len() && final(self).output_buffer@ == bytes@
                && !final(self).output_truncated,
            bytes@.len() > MAX_PLUGIN_OUTPUT_BYTES ==> r == -1 && final(self).output_buffer@ == bytes@.subrange(
                0,
                MAX_PLUGIN_OUTPUT_BYTES as int,
            ) && final(self).output_truncated,
            final(self).output_buffer@.len() <= MAX_PLUGIN_OUTPUT_BYTES,
            final(self).manifest == old(self).manifest,
    {
        match self.replace_output(bytes) {
            Some(n) => n,
            None => -1,
        }
    }

    /// The guest's `parc_host_output`: append to the output up to the cap,
    /// noting an overflow; an output within the cap stays within it.
    pub fn host_output(&mut self, bytes: &[u8])
        ensures
            ({
                let before = old(self).output_buffer@;
                let room = if before.len() >= MAX_PLUGIN_OUTPUT_BYTES {
                    0
                } else {
                    MAX_PLUGIN_OUTPUT_BYTES - before.len()
                };
                &&& final(self).output_buffer@ == if bytes@.len() <= room {
                    before + bytes@
                } else {
                    before + bytes@.subrange(0, room)
                }
                &&& final(self).output_truncated == (old(self).output_truncated || bytes@.len() > room)
            }),
            old(self).output_buffer@.len() <= MAX_PLUGIN_OUTPUT_BYTES ==> final(self).output_buffer@.len()
                <= MAX_PLUGIN_OUTPUT_BYTES,
            final(self).manifest == old(self).manifest,
    {
        self.append_output(bytes);
    }
}

// ── Reading a call's result ──────────────────────────────────────────

/// The result of a validation call.
#[derive(Debug)]
pub struct ValidationResult {
    pub valid: bool,
    pub errors: Vec<String>,
}

/// What an event handler returned: nothing when it returned 0 or left no
/// output, else its output as text.
pub fn event_reply(state: &PluginState, result: i32) -> (r: Result<Option<String>, ParcError>)
    ensures
        result == 0 ==> r == Ok::<Option<String>, ParcError>(None),
        result != 0 && state.output_truncated ==> (r matches Err(ParcError::PluginError(m)) && m@
            == output_overflow_message()),
        result != 0 && !state.output_truncated ==> (r matches Ok(o) && (if lossy_text(state.output_buffer@).len()
            == 0 {
            o.is_none()
        } else {
            o matches Some(s) && s@ == lossy_text(state.output_buffer@)
        })),
{
    if result == 0 {
        return Ok(None);
    }
    render_reply(state)
}

/// What a render handler left: its output as text, nothing when empty.
pub fn render_reply(state: &PluginState) -> (r: Result<Option<String>, ParcError>)
    ensures
        state.output_truncated ==> (r matches Err(ParcError::PluginError(m)) && m@ == output_overflow_message()),
        !state.output_truncated ==> (r matches Ok(o) && (if lossy_text(state.output_buffer@).len() == 0 {
            o.is_none()
        } else {
            o matches Some(s) && s@ == lossy_text(state.output_buffer@)
        })),
{
    let out = state.output_string()?;
    if chars_of(out.as_str()).len() == 0 {
        Ok(None)
    } else {
        Ok(Some(out))
    }
}

/// The lines of a text, as `str::lines` cuts them.
fn text_lines(s: &String) -> (r: Vec<String>)
    ensures
        texts(r@) == lines_from(s@, 0),
{
    let v = chars_of(s.as_str());
    let mut out: Vec<String> = Vec::new();
    let mut i: usize = 0;
    while i < v.len()
        invariant
            i <= v.len(),
            v@ == s@,
            texts(out@) + lines_from(v@, i as int) == lines_from(v@, 0),
        decreases v.len() - i,
    {
        let e = find_char_at(&v, '\n', i);
        proof {
            lemma_find_from_bounds(v@, '\n', i as int);
        }
        let piece = slice_vec(&v, i, e);
        let line = if e < v.len() && piece.len() > 0 && piece[piece.len() - 1] == '\r' {
            let t = slice_vec(&piece, 0, piece.len() - 1);
            assert(t@ =~= piece@.drop_last());
            t
        } else {
            piece
        };
        let ghost before = texts(out@);
        out.push(string_of(&line));
        assert(lines_from(v@, i as int) == seq![line@] + lines_from(v@, e + 1));
        assert(texts(out@) =~= before.push(line@));
        assert(before + (seq![line@] + lines_from(v@, e + 1)) =~= before.push(line@) + lines_from(v@, e + 1));
        if e < v.len() {
            i = e + 1;
        } else {
            assert(lines_from(v@, e + 1) =~= lines_from(v@, v@.len() as int));
            i = v.len();
        }
    }
    assert(lines_from(v@, i as int) =~= Seq::<Seq<char>>::empty());
    assert(texts(out@) + Seq::<Seq<char>>::empty() =~= texts(out@));
    out
}

/// What a validation handler returned: valid when it returned 0; else
/// invalid, with one error per line of its output, or `validation
/// failed` when it left none.
pub fn validation_reply(state: &PluginState, result: i32) -> (r: Result<ValidationResult, ParcError>)
    ensures
        result == 0 ==> (r matches Ok(v) && v.valid && v.errors@.len() == 0),
        result != 0 && state.output_truncated ==> (r matches Err(ParcError::PluginError(m)) && m@
            == output_overflow_message()),
        result != 0 && !state.output_truncated ==> (r matches Ok(v) && !v.valid && texts(v.errors@) == if lossy_text(
            state.output_buffer@,
        ).len() == 0 {
            seq!["validation failed"@]
        } else {
            lines_from(lossy_text(state.output_buffer@), 0)
        }),
{
    if result == 0 {
        return Ok(ValidationResult { valid: true, errors: Vec::new() });
    }
    let out = state.output_string()?;
    let errors = if chars_of(out.as_str()).len() == 0 {
        let mut e: Vec<String> = Vec::new();
        e.push(string_of(&chars_of("validation failed")));
        assert(texts(e@) =~= seq!["validation failed"@]);
        e
    } else {
        text_lines(&out)
    };
    Ok(ValidationResult { valid: false, errors })
}

// ── Guest memory ─────────────────────────────────────────────────────

/// The length of a payload for a 32-bit guest, refused above `i32::MAX`.
pub fn guest_payload_len(len: usize) -> (r: Result<i32, ParcError>)
    ensures
        len <= i32::MAX ==> r == Ok::<i32, ParcError>(len as i32),
        len > i32::MAX ==> (r matches Err(ParcError::PluginError(m)) && m@ == "payload too large for wasm32 plugin"@),
{
    if len > 2147483647 {
        return Err(ParcError::PluginError(string_of(&chars_of("payload too large for wasm32 plugin"))));
    }
    Ok(len as i32)
}

/// `n` as decimal text, with a leading `-` when negative.
pub open spec fn signed_decimal(n: int) -> Seq<char> {
    if n < 0 {
        seq!['-'] + decimal((-n) as nat)
    } else {
        decimal(n as nat)
    }
}

fn push_signed(out: &mut Vec<char>, n: i32)
    ensures
        final(out)@ == old(out)@ + signed_decimal(n as int),
{
    if n < 0 {
        out.push('-');
        let ghost mid = out@;
        let m: u64 = (0i64 - n as i64) as u64;
        push_decimal(out, m as usize);
        assert(out@ =~= old(out)@ + (seq!['-'] + decimal((-n) as nat)));
    } else {
        push_decimal(out, n as usize);
    }
}

/// The region a guest allocation gave for `len` bytes, when it lies
/// inside the guest's memory of `mem_size` bytes. A guest's pointer is
/// not trusted: a region that wraps or leaves memory is refused.
pub fn guest_alloc_region(ptr: i32, len: usize, mem_size: usize) -> (r: Result<(usize, usize), ParcError>)
    ensures
        ({
            let start = ptr as usize;
            if start + len > usize::MAX {
                r matches Err(ParcError::PluginError(m)) && m@ == "parc_alloc returned ptr+len overflow"@
            } else if ptr < 0 || start + len > mem_size {
                r matches Err(ParcError::PluginError(m)) && m@ == "parc_alloc returned out-of-bounds region: ptr="@
                    + signed_decimal(ptr as int) + " len="@ + decimal(len as nat) + " mem_size="@ + decimal(
                    mem_size as nat,
                )
            } else {
                r == Ok::<(usize, usize), ParcError>((start, (start + len) as usize))
            }
        }),
{
    #[verifier::truncate]
    let start = ptr as usize;
    if start > usize::MAX - len {
        return Err(ParcError::PluginError(string_of(&chars_of("parc_alloc returned ptr+len overflow"))));
    }
    let end = start + len;
    if ptr < 0 || end > mem_size {
        let mut m = chars_of("parc_alloc returned out-of-bounds region: ptr=");
        push_signed(&mut m, ptr);
        push_str(&mut m, " len=");
        push_decimal(&mut m, len);
        push_str(&mut m, " mem_size=");
        push_decimal(&mut m, mem_size);
        return Err(ParcError::PluginError(string_of(&m)));
    }
    Ok((start, end))
}

// ── Host calls ───────────────────────────────────────────────────────

/// The name of a guest log level.
pub fn log_level_name(level: i32) -> (r: &'static str)
    ensures
        r@ == (if level == 0 {
            "DEBUG"@
        } else if level == 1 {
            "INFO"@
        } else if level == 2 {
            "WARN"@
        } else if level == 3 {
            "ERROR"@
        } else {
            "LOG"@
        }),
{
    if level == 0 {
        "DEBUG"
    } else if level == 1 {
        "INFO"
    } else if level == 2 {
        "WARN"
    } else if level == 3 {
        "ERROR"
    } else {
        "LOG"
    }
}

/// The line a guest's log message is printed as: `[plugin][LEVEL] message`.
pub fn host_log_line(plugin_name: &str, level: i32, msg: &str) -> (r: String)
    ensures
        r@ == "["@ + plugin_name@ + "]["@ + log_level_name_spec(level) + "] "@ + msg@,
{
    let mut out = chars_of("[");
    push_str(&mut out, plugin_name);
    push_str(&mut out, "][");
    push_str(&mut out, log_level_name(level));
    push_str(&mut out, "] ");
    push_str(&mut out, msg);
    string_of(&out)
}

pub open spec fn log_level_name_spec(level: i32) -> Seq<char> {
    if level == 0 {
        "DEBUG"@
    } else if level == 1 {
        "INFO"@
    } else if level == 2 {
        "WARN"@
    } else if level == 3 {
        "ERROR"@
    } else {
        "LOG"@
    }
}

/// The first loaded plugin of that name, or the error naming it.
pub fn find_plugin(names: &[String], name: &str) -> (r: Result<usize, ParcError>)
    ensures
        match r {
            Ok(i) => i < names@.len() && names@[i as int]@ == name@ && forall|j: int|
                0 <= j < i ==> (#[trigger] names@[j])@ != name@,
            Err(e) => (forall|j: int| 0 <= j < names@.len() ==> (#[trigger] names@[j])@ != name@) && (e matches ParcError::PluginError(m)
                && m@ == "plugin '"@ + name@ + "' not found"@),
        },
{
    let n = chars_of(name);
    let mut i: usize = 0;
    while i < names.len()
        invariant
            i <= names.len(),
            n@ == name@,
            forall|j: int| 0 <= j < i ==> (#[trigger] names@[j])@ != name@,
        decreases names.len() - i,
    {
        if crate::text::eq_str_chars(&chars_of(names[i].as_str()), &n) {
            return Ok(i);
        }
        i = i + 1;
    }
    Err(ParcError::PluginError(concat3("plugin '", &n, "' not found")))
}

} // verus!
