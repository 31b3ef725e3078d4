//! The compact binary encoding of a snapshot bundle.
//!
//! This is the wire form used on the local snapshot channel.  Numbers are
//! little-endian fixed-width fields, strings are a byte length followed by
//! UTF-8 bytes, sequences are a count followed by the elements.  Decoding
//! accepts exactly the encodings this module produces: the round trip is
//! the identity, in both directions where it can be.

use vstd::bytes::{
    lemma_auto_spec_u32_to_from_le_bytes, lemma_auto_spec_u64_to_from_le_bytes,
    spec_u32_from_le_bytes, spec_u32_to_le_bytes, spec_u64_from_le_bytes, spec_u64_to_le_bytes,
};
use vstd::prelude::*;
use vstd::utf8::{decode_utf8, encode_utf8, valid_utf8};

use crate::config::{Config, ConfigView, GeneratedFileView};
use crate::service::{Bundle, BundleView, ServiceDefinition, ServiceDefinitionView, ServiceState};

verus! {

broadcast use vstd::utf8::encode_utf8_valid_utf8, vstd::utf8::encode_utf8_decode_utf8;

// ---------------------------------------------------------------------------
// What can be encoded: every length must fit its length field.  Values that
// exist as executable data always satisfy this.
// ---------------------------------------------------------------------------
/// A string whose UTF-8 form fits the 64-bit length field.
pub open spec fn str_encodable(s: Seq<char>) -> bool {
    encode_utf8(s).len() <= u64::MAX
}

/// A service definition whose parts all fit their length fields.
pub open spec fn def_encodable(d: ServiceDefinitionView) -> bool {
    &&& str_encodable(d.service_name)
    &&& str_encodable(d.function_name)
    &&& str_encodable(d.command)
    &&& d.args.len() <= u64::MAX
    &&& forall|i: int| 0 <= i < d.args.len() ==> str_encodable(#[trigger] d.args[i])
}

/// A configuration whose parts all fit their length fields.
pub open spec fn config_encodable(c: ConfigView) -> bool {
    &&& str_encodable(c.generated_file.path)
    &&& str_encodable(c.reload_command)
    &&& c.reload_command_args.len() <= u64::MAX
    &&& forall|i: int|
        0 <= i < c.reload_command_args.len() ==> str_encodable(#[trigger] c.reload_command_args[i])
    &&& c.service_definitions.len() <= u64::MAX
    &&& forall|i: int|
        0 <= i < c.service_definitions.len() ==> def_encodable(#[trigger] c.service_definitions[i])
}

/// A bundle whose parts all fit their length fields.
pub open spec fn bundle_encodable(v: BundleView) -> bool {
    &&& config_encodable(v.config)
    &&& v.service_states.len() <= u64::MAX
}

// ---------------------------------------------------------------------------
// Specification of the encoding.
// ---------------------------------------------------------------------------
/// A boolean as one byte.
pub open spec fn enc_bool(b: bool) -> Seq<u8> {
    seq![if b { 1u8 } else { 0u8 }]
}

/// A string as its UTF-8 byte length, then its UTF-8 bytes.
pub open spec fn enc_str(s: Seq<char>) -> Seq<u8> {
    spec_u64_to_le_bytes(encode_utf8(s).len() as u64) + encode_utf8(s)
}

/// A sequence of strings, front first.
pub open spec fn enc_str_seq(v: Seq<Seq<char>>) -> Seq<u8>
    decreases v.len(),
{
    if v.len() == 0 {
        Seq::<u8>::empty()
    } else {
        enc_str(v.first()) + enc_str_seq(v.drop_first())
    }
}

/// A service state as a tag byte and its counter.
pub open spec fn enc_state(st: ServiceState) -> Seq<u8> {
    match st {
        ServiceState::Failure { nb_of_success } => seq![0u8] + spec_u32_to_le_bytes(nb_of_success),
        ServiceState::Success { nb_of_failure } => seq![1u8] + spec_u32_to_le_bytes(nb_of_failure),
    }
}

/// A sequence of service states, front first.
pub open spec fn enc_state_seq(v: Seq<ServiceState>) -> Seq<u8>
    decreases v.len(),
{
    if v.len() == 0 {
        Seq::<u8>::empty()
    } else {
        enc_state(v.first()) + enc_state_seq(v.drop_first())
    }
}

/// One service definition, field by field.
pub open spec fn enc_def(d: ServiceDefinitionView) -> Seq<u8> {
    enc_str(d.service_name) + enc_str(d.function_name) + enc_str(d.command) + spec_u64_to_le_bytes(
        d.args.len() as u64,
    ) + enc_str_seq(d.args) + spec_u64_to_le_bytes(d.interval) + spec_u64_to_le_bytes(
        d.command_timeout,
    ) + spec_u32_to_le_bytes(d.fall) + spec_u32_to_le_bytes(d.rise)
}

/// A sequence of service definitions, front first.
pub open spec fn enc_def_seq(v: Seq<ServiceDefinitionView>) -> Seq<u8>
    decreases v.len(),
{
    if v.len() == 0 {
        Seq::<u8>::empty()
    } else {
        enc_def(v.first()) + enc_def_seq(v.drop_first())
    }
}

/// The generated-file section.
pub open spec fn enc_generated_file(g: GeneratedFileView) -> Seq<u8> {
    enc_str(g.path) + enc_bool(g.function_return_type)
}

/// A whole configuration.
pub open spec fn enc_config(c: ConfigView) -> Seq<u8> {
    enc_generated_file(c.generated_file) + enc_str(c.reload_command) + spec_u64_to_le_bytes(
        c.reload_command_args.len() as u64,
    ) + enc_str_seq(c.reload_command_args) + spec_u64_to_le_bytes(c.reload_timeout)
        + spec_u64_to_le_bytes(c.service_definitions.len() as u64) + enc_def_seq(
        c.service_definitions,
    )
}

/// A whole bundle: the configuration, then the states.
pub open spec fn enc_bundle(v: BundleView) -> Seq<u8> {
    enc_config(v.config) + spec_u64_to_le_bytes(v.service_states.len() as u64) + enc_state_seq(
        v.service_states,
    )
}

// ---------------------------------------------------------------------------
// Specification of the decoding.  Each function consumes a prefix of the
// input and yields the decoded value together with the remainder.
// ---------------------------------------------------------------------------
/// Read one little-endian 64-bit number.
pub open spec fn dec_u64(s: Seq<u8>) -> Option<(u64, Seq<u8>)> {
    if s.len() >= 8 {
        Some((spec_u64_from_le_bytes(s.take(8)), s.skip(8)))
    } else {
        None
    }
}

/// Read one little-endian 32-bit number.
pub open spec fn dec_u32(s: Seq<u8>) -> Option<(u32, Seq<u8>)> {
    if s.len() >= 4 {
        Some((spec_u32_from_le_bytes(s.take(4)), s.skip(4)))
    } else {
        None
    }
}

/// Read one boolean byte.
pub open spec fn dec_bool(s: Seq<u8>) -> Option<(bool, Seq<u8>)> {
    if s.len() >= 1 && (s[0] == 0u8 || s[0] == 1u8) {
        Some((s[0] == 1u8, s.skip(1)))
    } else {
        None
    }
}

/// Read one string: length, then that many bytes of valid UTF-8.
pub open spec fn dec_str(s: Seq<u8>) -> Option<(Seq<char>, Seq<u8>)> {
    match dec_u64(s) {
        None => None,
        Some((n, r)) => {
            if r.len() >= n && valid_utf8(r.take(n as int)) {
                Some((decode_utf8(r.take(n as int)), r.skip(n as int)))
            } else {
                None
            }
        },
    }
}

/// Read `n` strings.
pub open spec fn dec_str_n(s: Seq<u8>, n: nat) -> Option<(Seq<Seq<char>>, Seq<u8>)>
    decreases n,
{
    if n == 0 {
        Some((Seq::<Seq<char>>::empty(), s))
    } else {
        match dec_str(s) {
            None => None,
            Some((head, r)) => {
                match dec_str_n(r, (n - 1) as nat) {
                    None => None,
                    Some((tail, r2)) => Some((seq![head] + tail, r2)),
                }
            },
        }
    }
}

/// Read one service state.
pub open spec fn dec_state(s: Seq<u8>) -> Option<(ServiceState, Seq<u8>)> {
    if s.len() < 1 {
        None
    } else if s[0] == 0u8 {
        match dec_u32(s.skip(1)) {
            None => None,
            Some((n, r)) => Some((ServiceState::Failure { nb_of_success: n }, r)),
        }
    } else if s[0] == 1u8 {
        match dec_u32(s.skip(1)) {
            None => None,
            Some((n, r)) => Some((ServiceState::Success { nb_of_failure: n }, r)),
        }
    } else {
        None
    }
}

/// Read `n` service states.
pub open spec fn dec_state_n(s: Seq<u8>, n: nat) -> Option<(Seq<ServiceState>, Seq<u8>)>
    decreases n,
{
    if n == 0 {
        Some((Seq::<ServiceState>::empty(), s))
    } else {
        match dec_state(s) {
            None => None,
            Some((head, r)) => {
                match dec_state_n(r, (n - 1) as nat) {
                    None => None,
                    Some((tail, r2)) => Some((seq![head] + tail, r2)),
                }
            },
        }
    }
}

/// Read one service definition.
pub open spec fn dec_def(s: Seq<u8>) -> Option<(ServiceDefinitionView, Seq<u8>)> {
    match dec_str(s) {
        None => None,
        Some((service_name, r1)) => match dec_str(r1) {
            None => None,
            Some((function_name, r2)) => match dec_str(r2) {
                None => None,
                Some((command, r3)) => match dec_u64(r3) {
                    None => None,
                    Some((nargs, r4)) => match dec_str_n(r4, nargs as nat) {
                        None => None,
                        Some((args, r5)) => match dec_u64(r5) {
                            None => None,
                            Some((interval, r6)) => match dec_u64(r6) {
                                None => None,
                                Some((command_timeout, r7)) => match dec_u32(r7) {
                                    None => None,
                                    Some((fall, r8)) => match dec_u32(r8) {
                                        None => None,
                                        Some((rise, r9)) => Some(
                                            (
                                                ServiceDefinitionView {
                                                    service_name,
                                                    function_name,
                                                    command,
                                                    args,
                                                    interval,
                                                    command_timeout,
                                                    fall,
                                                    rise,
                                                },
                                                r9,
                                            ),
                                        ),
                                    },
                                },
                            },
                        },
                    },
                },
            },
        },
    }
}

/// Read `n` service definitions.
pub open spec fn dec_def_n(s: Seq<u8>, n: nat) -> Option<(Seq<ServiceDefinitionView>, Seq<u8>)>
    decreases n,
{
    if n == 0 {
        Some((Seq::<ServiceDefinitionView>::empty(), s))
    } else {
        match dec_def(s) {
            None => None,
            Some((head, r)) => {
                match dec_def_n(r, (n - 1) as nat) {
                    None => None,
                    Some((tail, r2)) => Some((seq![head] + tail, r2)),
                }
            },
        }
    }
}

/// Read a whole configuration.
pub open spec fn dec_config(s: Seq<u8>) -> Option<(ConfigView, Seq<u8>)> {
    match dec_str(s) {
        None => None,
        Some((path, r1)) => match dec_bool(r1) {
            None => None,
            Some((function_return_type, r2)) => match dec_str(r2) {
                None => None,
                Some((reload_command, r3)) => match dec_u64(r3) {
                    None => None,
                    Some((nargs, r4)) => match dec_str_n(r4, nargs as nat) {
                        None => None,
                        Some((reload_command_args, r5)) => match dec_u64(r5) {
                            None => None,
                            Some((reload_timeout, r6)) => match dec_u64(r6) {
                                None => None,
                                Some((ndefs, r7)) => match dec_def_n(r7, ndefs as nat) {
                                    None => None,
                                    Some((service_definitions, r8)) => Some(
                                        (
                                            ConfigView {
                                                generated_file: GeneratedFileView {
                                                    path,
                                                    function_return_type,
                                                },
                                                reload_command,
                                                reload_command_args,
                                                reload_timeout,
                                                service_definitions,
                                            },
                                            r8,
                                        ),
                                    ),
                                },
                            },
                        },
                    },
                },
            },
        },
    }
}

/// Read a whole bundle; the input must be consumed exactly.
pub open spec fn dec_bundle(s: Seq<u8>) -> Option<BundleView> {
    match dec_config(s) {
        None => None,
        Some((config, r1)) => match dec_u64(r1) {
            None => None,
            Some((nstates, r2)) => match dec_state_n(r2, nstates as nat) {
                None => None,
                Some((service_states, r3)) => {
                    if r3.len() == 0 {
                        Some(BundleView { config, service_states })
                    } else {
                        None
                    }
                },
            },
        },
    }
}

// ---------------------------------------------------------------------------
// The round trip: decoding an encoding yields the encoded value, whatever
// follows it in the input.
// ---------------------------------------------------------------------------
/// Reading back an encoded 64-bit number.
pub proof fn lemma_dec_enc_u64(v: u64, rest: Seq<u8>)
    ensures
        dec_u64(spec_u64_to_le_bytes(v) + rest) == Some((v, rest)),
{
    lemma_auto_spec_u64_to_from_le_bytes();
    let s = spec_u64_to_le_bytes(v) + rest;
    assert(s.take(8) =~= spec_u64_to_le_bytes(v));
    assert(s.skip(8) =~= rest);
}

/// Reading back an encoded 32-bit number.
pub proof fn lemma_dec_enc_u32(v: u32, rest: Seq<u8>)
    ensures
        dec_u32(spec_u32_to_le_bytes(v) + rest) == Some((v, rest)),
{
    lemma_auto_spec_u32_to_from_le_bytes();
    let s = spec_u32_to_le_bytes(v) + rest;
    assert(s.take(4) =~= spec_u32_to_le_bytes(v));
    assert(s.skip(4) =~= rest);
}

/// Reading back an encoded boolean.
pub proof fn lemma_dec_enc_bool(b: bool, rest: Seq<u8>)
    ensures
        dec_bool(enc_bool(b) + rest) == Some((b, rest)),
{
    let s = enc_bool(b) + rest;
    assert(s.skip(1) =~= rest);
}

/// Reading back an encoded string.
pub proof fn lemma_dec_enc_str(v: Seq<char>, rest: Seq<u8>)
    requires
        str_encodable(v),
    ensures
        dec_str(enc_str(v) + rest) == Some((v, rest)),
{
    let bytes = encode_utf8(v);
    let n = bytes.len() as u64;
    assert(enc_str(v) + rest =~= spec_u64_to_le_bytes(n) + (bytes + rest));
    lemma_dec_enc_u64(n, bytes + rest);
    assert((bytes + rest).take(n as int) =~= bytes);
    assert((bytes + rest).skip(n as int) =~= rest);
    assert(valid_utf8(bytes));
    assert(decode_utf8(bytes) == v);
}

/// Reading back an encoded string sequence of known length.
pub proof fn lemma_dec_enc_str_seq(v: Seq<Seq<char>>, rest: Seq<u8>)
    requires
        v.len() <= u64::MAX,
        forall|i: int| 0 <= i < v.len() ==> str_encodable(#[trigger] v[i]),
    ensures
        dec_str_n(enc_str_seq(v) + rest, v.len()) == Some((v, rest)),
    decreases v.len(),
{
    if v.len() == 0 {
        assert(enc_str_seq(v) + rest =~= rest);
        assert(dec_str_n(rest, 0) == Some((Seq::<Seq<char>>::empty(), rest)));
        assert(v =~= Seq::<Seq<char>>::empty());
    } else {
        let head = v.first();
        let tail = v.drop_first();
        assert(enc_str_seq(v) + rest =~= enc_str(head) + (enc_str_seq(tail) + rest));
        lemma_dec_enc_str(head, enc_str_seq(tail) + rest);
        lemma_dec_enc_str_seq(tail, rest);
        assert(seq![head] + tail =~= v);
    }
}

/// Reading back an encoded service state.
pub proof fn lemma_dec_enc_state(st: ServiceState, rest: Seq<u8>)
    ensures
        dec_state(enc_state(st) + rest) == Some((st, rest)),
{
    match st {
        ServiceState::Failure { nb_of_success } => {
            let s = enc_state(st) + rest;
            assert(s[0] == 0u8);
            assert(s.skip(1) =~= spec_u32_to_le_bytes(nb_of_success) + rest);
            lemma_dec_enc_u32(nb_of_success, rest);
        },
        ServiceState::Success { nb_of_failure } => {
            let s = enc_state(st) + rest;
            assert(s[0] == 1u8);
            assert(s.skip(1) =~= spec_u32_to_le_bytes(nb_of_failure) + rest);
            lemma_dec_enc_u32(nb_of_failure, rest);
        },
    }
}

/// Reading back an encoded state sequence of known length.
pub proof fn lemma_dec_enc_state_seq(v: Seq<ServiceState>, rest: Seq<u8>)
    requires
        v.len() <= u64::MAX,
    ensures
        dec_state_n(enc_state_seq(v) + rest, v.len()) == Some((v, rest)),
    decreases v.len(),
{
    if v.len() == 0 {
        assert(enc_state_seq(v) + rest =~= rest);
        assert(v =~= Seq::<ServiceState>::empty());
    } else {
        let head = v.first();
        let tail = v.drop_first();
        assert(enc_state_seq(v) + rest =~= enc_state(head) + (enc_state_seq(tail) + rest));
        lemma_dec_enc_state(head, enc_state_seq(tail) + rest);
        lemma_dec_enc_state_seq(tail, rest);
        assert(seq![head] + tail =~= v);
    }
}

/// Reading back an encoded service definition.
#[verifier::rlimit(50)]
pub proof fn lemma_dec_enc_def(d: ServiceDefinitionView, rest: Seq<u8>)
    requires
        def_encodable(d),
    ensures
        dec_def(enc_def(d) + rest) == Some((d, rest)),
{
    let r9 = rest;
    let r8 = spec_u32_to_le_bytes(d.rise) + r9;
    let r7 = spec_u32_to_le_bytes(d.fall) + r8;
    let r6 = spec_u64_to_le_bytes(d.command_timeout) + r7;
    let r5 = spec_u64_to_le_bytes(d.interval) + r6;
    let r4 = enc_str_seq(d.args) + r5;
    let r3 = spec_u64_to_le_bytes(d.args.len() as u64) + r4;
    let r2 = enc_str(d.command) + r3;
    let r1 = enc_str(d.function_name) + r2;
    assert(enc_def(d) + rest =~= enc_str(d.service_name) + r1);
    lemma_dec_enc_str(d.service_name, r1);
    assert(r1 =~= enc_str(d.function_name) + r2);
    lemma_dec_enc_str(d.function_name, r2);
    assert(r2 =~= enc_str(d.command) + r3);
    lemma_dec_enc_str(d.command, r3);
    lemma_dec_enc_u64(d.args.len() as u64, r4);
    lemma_dec_enc_str_seq(d.args, r5);
    lemma_dec_enc_u64(d.interval, r6);
    lemma_dec_enc_u64(d.command_timeout, r7);
    lemma_dec_enc_u32(d.fall, r8);
    lemma_dec_enc_u32(d.rise, r9);
}

/// Reading back an encoded definition sequence of known length.
pub proof fn lemma_dec_enc_def_seq(v: Seq<ServiceDefinitionView>, rest: Seq<u8>)
    requires
        v.len() <= u64::MAX,
        forall|i: int| 0 <= i < v.len() ==> def_encodable(#[trigger] v[i]),
    ensures
        dec_def_n(enc_def_seq(v) + rest, v.len()) == Some((v, rest)),
    decreases v.len(),
{
    if v.len() == 0 {
        assert(enc_def_seq(v) + rest =~= rest);
        assert(v =~= Seq::<ServiceDefinitionView>::empty());
    } else {
        let head = v.first();
        let tail = v.drop_first();
        assert(enc_def_seq(v) + rest =~= enc_def(head) + (enc_def_seq(tail) + rest));
        lemma_dec_enc_def(head, enc_def_seq(tail) + rest);
        lemma_dec_enc_def_seq(tail, rest);
        assert(seq![head] + tail =~= v);
    }
}

/// Reading back an encoded configuration.
#[verifier::rlimit(80)]
pub proof fn lemma_dec_enc_config(c: ConfigView, rest: Seq<u8>)
    requires
        config_encodable(c),
    ensures
        dec_config(enc_config(c) + rest) == Some((c, rest)),
{
    let r8 = rest;
    let r7 = enc_def_seq(c.service_definitions) + r8;
    let r6 = spec_u64_to_le_bytes(c.service_definitions.len() as u64) + r7;
    let r5 = spec_u64_to_le_bytes(c.reload_timeout) + r6;
    let r4 = enc_str_seq(c.reload_command_args) + r5;
    let r3 = spec_u64_to_le_bytes(c.reload_command_args.len() as u64) + r4;
    let r2 = enc_str(c.reload_command) + r3;
    let r1 = enc_bool(c.generated_file.function_return_type) + r2;
    assert(enc_config(c) + rest =~= enc_str(c.generated_file.path) + r1);
    lemma_dec_enc_str(c.generated_file.path, r1);
    lemma_dec_enc_bool(c.generated_file.function_return_type, r2);
    lemma_dec_enc_str(c.reload_command, r3);
    lemma_dec_enc_u64(c.reload_command_args.len() as u64, r4);
    lemma_dec_enc_str_seq(c.reload_command_args, r5);
    lemma_dec_enc_u64(c.reload_timeout, r6);
    lemma_dec_enc_u64(c.service_definitions.len() as u64, r7);
    lemma_dec_enc_def_seq(c.service_definitions, r8);
}

/// The round-trip law for the binary encoding: decoding an encoded bundle
/// yields a field-wise identical bundle.
pub proof fn lemma_binary_round_trip(v: BundleView)
    requires
        bundle_encodable(v),
    ensures
        dec_bundle(enc_bundle(v)) == Some(v),
{
    let r2 = enc_state_seq(v.service_states);
    let r1 = spec_u64_to_le_bytes(v.service_states.len() as u64) + r2;
    assert(enc_bundle(v) =~= enc_config(v.config) + r1);
    lemma_dec_enc_config(v.config, r1);
    lemma_dec_enc_u64(v.service_states.len() as u64, r2);
    assert(r2 =~= enc_state_seq(v.service_states) + Seq::<u8>::empty());
    lemma_dec_enc_state_seq(v.service_states, Seq::<u8>::empty());
}

// ---------------------------------------------------------------------------
// Executable encoding.
// ---------------------------------------------------------------------------
/// Relies on `String::from_utf8`: succeeds exactly on valid UTF-8 input and
/// decodes it.
#[verifier::external_body]
fn string_from_utf8(bytes: Vec<u8>) -> (r: Option<String>)
    ensures
        r is Some <==> valid_utf8(bytes@),
        r matches Some(s) ==> s@ == decode_utf8(bytes@),
{
    String::from_utf8(bytes).ok()
}

/// Append one 64-bit number.
fn push_u64(out: &mut Vec<u8>, v: u64)
    ensures
        final(out)@ == old(out)@ + spec_u64_to_le_bytes(v),
{
    let mut b = vstd::bytes::u64_to_le_bytes(v);
    out.append(&mut b);
}

/// Append one 32-bit number.
fn push_u32(out: &mut Vec<u8>, v: u32)
    ensures
        final(out)@ == old(out)@ + spec_u32_to_le_bytes(v),
{
    let mut b = vstd::bytes::u32_to_le_bytes(v);
    out.append(&mut b);
}

/// Append one boolean byte.
fn push_bool(out: &mut Vec<u8>, b: bool)
    ensures
        final(out)@ == old(out)@ + enc_bool(b),
{
    out.push(if b {
        1
    } else {
        0
    });
    proof {
        assert(final(out)@ =~= old(out)@ + enc_bool(b));
    }
}

/// Append one string.
fn push_str(out: &mut Vec<u8>, s: &String)
    ensures
        final(out)@ == old(out)@ + enc_str(s@),
        str_encodable(s@),
{
    let mut bytes = s.as_str().as_bytes_vec();
    push_u64(out, bytes.len() as u64);
    out.append(&mut bytes);
}

/// Append one service state.
fn push_state(out: &mut Vec<u8>, st: &ServiceState)
    ensures
        final(out)@ == old(out)@ + enc_state(*st),
{
    match st {
        ServiceState::Failure { nb_of_success } => {
            out.push(0);
            push_u32(out, *nb_of_success);
        },
        ServiceState::Success { nb_of_failure } => {
            out.push(1);
            push_u32(out, *nb_of_failure);
        },
    }
    proof {
        assert(final(out)@ =~= old(out)@ + enc_state(*st));
    }
}

/// Appending one more string extends the sequence encoding.
proof fn lemma_enc_str_seq_push(a: Seq<Seq<char>>, x: Seq<char>)
    ensures
        enc_str_seq(a.push(x)) == enc_str_seq(a) + enc_str(x),
    decreases a.len(),
{
    if a.len() == 0 {
        assert(a.push(x).first() == x);
        assert(a.push(x).drop_first() =~= Seq::<Seq<char>>::empty());
        reveal_with_fuel(enc_str_seq, 2);
        assert(enc_str_seq(a.push(x)) =~= enc_str_seq(a) + enc_str(x));
    } else {
        assert(a.push(x).first() == a.first());
        assert(a.push(x).drop_first() =~= a.drop_first().push(x));
        lemma_enc_str_seq_push(a.drop_first(), x);
        assert(enc_str_seq(a.push(x)) == enc_str(a.first()) + enc_str_seq(
            a.drop_first().push(x),
        ));
        assert(enc_str_seq(a) == enc_str(a.first()) + enc_str_seq(a.drop_first()));
        vstd::seq_lib::lemma_concat_associative(
            enc_str(a.first()),
            enc_str_seq(a.drop_first()),
            enc_str(x),
        );
        assert(enc_str_seq(a.push(x)) =~= enc_str_seq(a) + enc_str(x));
    }
}

/// Appending one more state extends the sequence encoding.
proof fn lemma_enc_state_seq_push(a: Seq<ServiceState>, x: ServiceState)
    ensures
        enc_state_seq(a.push(x)) == enc_state_seq(a) + enc_state(x),
    decreases a.len(),
{
    if a.len() == 0 {
        assert(a.push(x).first() == x);
        assert(a.push(x).drop_first() =~= Seq::<ServiceState>::empty());
        reveal_with_fuel(enc_state_seq, 2);
        assert(enc_state_seq(a.push(x)) =~= enc_state_seq(a) + enc_state(x));
    } else {
        assert(a.push(x).first() == a.first());
        assert(a.push(x).drop_first() =~= a.drop_first().push(x));
        lemma_enc_state_seq_push(a.drop_first(), x);
        assert(enc_state_seq(a.push(x)) == enc_state(a.first()) + enc_state_seq(
            a.drop_first().push(x),
        ));
        assert(enc_state_seq(a) == enc_state(a.first()) + enc_state_seq(a.drop_first()));
        vstd::seq_lib::lemma_concat_associative(
            enc_state(a.first()),
            enc_state_seq(a.drop_first()),
            enc_state(x),
        );
        assert(enc_state_seq(a.push(x)) =~= enc_state_seq(a) + enc_state(x));
    }
}

/// Appending one more definition extends the sequence encoding.
proof fn lemma_enc_def_seq_push(a: Seq<ServiceDefinitionView>, x: ServiceDefinitionView)
    ensures
        enc_def_seq(a.push(x)) == enc_def_seq(a) + enc_def(x),
    decreases a.len(),
{
    if a.len() == 0 {
        assert(a.push(x).first() == x);
        assert(a.push(x).drop_first() =~= Seq::<ServiceDefinitionView>::empty());
        reveal_with_fuel(enc_def_seq, 2);
        assert(enc_def_seq(a.push(x)) =~= enc_def_seq(a) + enc_def(x));
    } else {
        assert(a.push(x).first() == a.first());
        assert(a.push(x).drop_first() =~= a.drop_first().push(x));
        lemma_enc_def_seq_push(a.drop_first(), x);
        assert(enc_def_seq(a.push(x)) == enc_def(a.first()) + enc_def_seq(
            a.drop_first().push(x),
        ));
        assert(enc_def_seq(a) == enc_def(a.first()) + enc_def_seq(a.drop_first()));
        vstd::seq_lib::lemma_concat_associative(
            enc_def(a.first()),
            enc_def_seq(a.drop_first()),
            enc_def(x),
        );
        assert(enc_def_seq(a.push(x)) =~= enc_def_seq(a) + enc_def(x));
    }
}

/// Append a vector of strings: count, then the elements.
fn push_str_vec(out: &mut Vec<u8>, v: &Vec<String>)
    ensures
        final(out)@ == old(out)@ + spec_u64_to_le_bytes(v@.len() as u64) + enc_str_seq(
            v.deep_view(),
        ),
        v.deep_view().len() <= u64::MAX,
        forall|i: int| 0 <= i < v.deep_view().len() ==> str_encodable(#[trigger] v.deep_view()[i]),
{
    push_u64(out, v.len() as u64);
    let ghost base = out@;
    let mut i: usize = 0;
    while i < v.len()
        invariant
            i <= v@.len(),
            out@ == base + enc_str_seq(v.deep_view().take(i as int)),
            forall|j: int| 0 <= j < i ==> str_encodable(#[trigger] v.deep_view()[j]),
        decreases v@.len() - i,
    {
        push_str(out, &v[i]);
        proof {
            assert(v.deep_view().take(i + 1) =~= v.deep_view().take(i as int).push(
                v.deep_view()[i as int],
            ));
            lemma_enc_str_seq_push(v.deep_view().take(i as int), v.deep_view()[i as int]);
            assert(out@ =~= base + enc_str_seq(v.deep_view().take(i + 1)));
        }
        i = i + 1;
    }
    proof {
        assert(v.deep_view().take(v.deep_view().len() as int) =~= v.deep_view());
    }
}

/// Append one service definition.
fn push_def(out: &mut Vec<u8>, d: &ServiceDefinition)
    ensures
        final(out)@ == old(out)@ + enc_def(d@),
        def_encodable(d@),
{
    push_str(out, &d.service_name);
    push_str(out, &d.function_name);
    push_str(out, &d.command);
    push_str_vec(out, &d.args);
    push_u64(out, d.interval.millis);
    push_u64(out, d.command_timeout.millis);
    push_u32(out, d.fall);
    push_u32(out, d.rise);
    proof {
        assert(final(out)@ =~= old(out)@ + enc_def(d@));
    }
}

/// Append a whole configuration.
fn push_config(out: &mut Vec<u8>, c: &Config)
    ensures
        final(out)@ == old(out)@ + enc_config(c@),
        config_encodable(c@),
{
    push_str(out, &c.generated_file.path);
    push_bool(out, c.generated_file.function_return_type);
    push_str(out, &c.reload_command);
    push_str_vec(out, &c.reload_command_args);
    push_u64(out, c.reload_timeout.millis);
    push_u64(out, c.service_definitions.len() as u64);
    let ghost base = out@;
    let mut i: usize = 0;
    while i < c.service_definitions.len()
        invariant
            i <= c.service_definitions@.len(),
            out@ == base + enc_def_seq(c.service_definitions.deep_view().take(i as int)),
            forall|j: int|
                0 <= j < i ==> def_encodable(#[trigger] c.service_definitions.deep_view()[j]),
        decreases c.service_definitions@.len() - i,
    {
        push_def(out, &c.service_definitions[i]);
        proof {
            let dv = c.service_definitions.deep_view();
            assert(dv.take(i + 1) =~= dv.take(i as int).push(dv[i as int]));
            lemma_enc_def_seq_push(dv.take(i as int), dv[i as int]);
            assert(out@ =~= base + enc_def_seq(dv.take(i + 1)));
        }
        i = i + 1;
    }
    proof {
        let dv = c.service_definitions.deep_view();
        assert(dv.take(dv.len() as int) =~= dv);
        assert(final(out)@ =~= old(out)@ + enc_config(c@));
    }
}

/// Encode a bundle into its compact binary wire form.
pub fn encode_bundle(b: &Bundle) -> (r: Vec<u8>)
    ensures
        r@ == enc_bundle(b@),
        bundle_encodable(b@),
{
    let mut out: Vec<u8> = Vec::new();
    push_config(&mut out, &b.config);
    push_u64(&mut out, b.service_states.len() as u64);
    let ghost base = out@;
    let mut i: usize = 0;
    while i < b.service_states.len()
        invariant
            i <= b.service_states@.len(),
            out@ == base + enc_state_seq(b.service_states@.take(i as int)),
        decreases b.service_states@.len() - i,
    {
        push_state(&mut out, &b.service_states[i]);
        proof {
            let sv = b.service_states@;
            assert(sv.take(i + 1) =~= sv.take(i as int).push(sv[i as int]));
            lemma_enc_state_seq_push(sv.take(i as int), sv[i as int]);
            assert(out@ =~= base + enc_state_seq(sv.take(i + 1)));
        }
        i = i + 1;
    }
    proof {
        assert(b.service_states@.take(b.service_states@.len() as int) =~= b.service_states@);
        assert(out@ =~= enc_bundle(b@));
    }
    out
}

// ---------------------------------------------------------------------------
// Executable decoding.  Each function consumes bytes from a position and
// returns the decoded value with the next position; its result agrees with
// the specification decoder applied to the remaining bytes.
// ---------------------------------------------------------------------------
/// Read one 64-bit number.
fn d_u64(bytes: &Vec<u8>, pos: usize) -> (r: Option<(u64, usize)>)
    requires
        pos <= bytes@.len(),
    ensures
        match r {
            Some((v, p)) => pos <= p <= bytes@.len() && dec_u64(bytes@.skip(pos as int)) == Some(
                (v, bytes@.skip(p as int)),
            ),
            None => dec_u64(bytes@.skip(pos as int)) is None,
        },
{
    let n = bytes.len();
    if n - pos >= 8 {
        let sub = vstd::slice::slice_subrange(bytes.as_slice(), pos, pos + 8);
        let v = vstd::bytes::u64_from_le_bytes(sub);
        proof {
            assert(bytes@.skip(pos as int).take(8) =~= bytes@.subrange(pos as int, pos + 8));
            assert(bytes@.skip(pos as int).skip(8) =~= bytes@.skip(pos + 8));
        }
        Some((v, pos + 8))
    } else {
        None
    }
}

/// Read one 32-bit number.
fn d_u32(bytes: &Vec<u8>, pos: usize) -> (r: Option<(u32, usize)>)
    requires
        pos <= bytes@.len(),
    ensures
        match r {
            Some((v, p)) => pos <= p <= bytes@.len() && dec_u32(bytes@.skip(pos as int)) == Some(
                (v, bytes@.skip(p as int)),
            ),
            None => dec_u32(bytes@.skip(pos as int)) is None,
        },
{
    let n = bytes.len();
    if n - pos >= 4 {
        let sub = vstd::slice::slice_subrange(bytes.as_slice(), pos, pos + 4);
        let v = vstd::bytes::u32_from_le_bytes(sub);
        proof {
            assert(bytes@.skip(pos as int).take(4) =~= bytes@.subrange(pos as int, pos + 4));
            assert(bytes@.skip(pos as int).skip(4) =~= bytes@.skip(pos + 4));
        }
        Some((v, pos + 4))
    } else {
        None
    }
}

/// Read one boolean byte.
fn d_bool(bytes: &Vec<u8>, pos: usize) -> (r: Option<(bool, usize)>)
    requires
        pos <= bytes@.len(),
    ensures
        match r {
            Some((v, p)) => pos <= p <= bytes@.len() && dec_bool(bytes@.skip(pos as int)) == Some(
                (v, bytes@.skip(p as int)),
            ),
            None => dec_bool(bytes@.skip(pos as int)) is None,
        },
{
    if pos < bytes.len() {
        let b = bytes[pos];
        proof {
            assert(bytes@.skip(pos as int)[0] == bytes@[pos as int]);
            assert(bytes@.skip(pos as int).skip(1) =~= bytes@.skip(pos as int + 1));
        }
        if b == 0 {
            Some((false, pos + 1))
        } else if b == 1 {
            Some((true, pos + 1))
        } else {
            None
        }
    } else {
        None
    }
}

/// Read one string.
fn d_str(bytes: &Vec<u8>, pos: usize) -> (r: Option<(String, usize)>)
    requires
        pos <= bytes@.len(),
    ensures
        match r {
            Some((s, p)) => pos <= p <= bytes@.len() && dec_str(bytes@.skip(pos as int)) == Some(
                (s@, bytes@.skip(p as int)),
            ),
            None => dec_str(bytes@.skip(pos as int)) is None,
        },
{
    match d_u64(bytes, pos) {
        None => None,
        Some((len64, p)) => {
            let n = bytes.len();
            if len64 <= (n - p) as u64 {
                let l = len64 as usize;
                let sub = vstd::slice::slice_subrange(bytes.as_slice(), p, p + l);
                let seg = vstd::slice::slice_to_vec(sub);
                proof {
                    assert(bytes@.skip(p as int).take(len64 as int) =~= bytes@.subrange(
                        p as int,
                        p + len64,
                    ));
                    assert(bytes@.skip(p as int).skip(len64 as int) =~= bytes@.skip(p + len64));
                }
                match string_from_utf8(seg) {
                    Some(s) => Some((s, p + l)),
                    None => None,
                }
            } else {
                None
            }
        },
    }
}

/// Read one service state.
fn d_state(bytes: &Vec<u8>, pos: usize) -> (r: Option<(ServiceState, usize)>)
    requires
        pos <= bytes@.len(),
    ensures
        match r {
            Some((st, p)) => pos <= p <= bytes@.len() && dec_state(bytes@.skip(pos as int))
                == Some((st, bytes@.skip(p as int))),
            None => dec_state(bytes@.skip(pos as int)) is None,
        },
{
    if pos < bytes.len() {
        let tag = bytes[pos];
        proof {
            assert(bytes@.skip(pos as int)[0] == bytes@[pos as int]);
            assert(bytes@.skip(pos as int).skip(1) =~= bytes@.skip(pos as int + 1));
        }
        if tag == 0 {
            match d_u32(bytes, pos + 1) {
                Some((v, p)) => Some((ServiceState::Failure { nb_of_success: v }, p)),
                None => None,
            }
        } else if tag == 1 {
            match d_u32(bytes, pos + 1) {
                Some((v, p)) => Some((ServiceState::Success { nb_of_failure: v }, p)),
                None => None,
            }
        } else {
            None
        }
    } else {
        None
    }
}

/// Read `n` strings.
fn d_str_n(bytes: &Vec<u8>, pos: usize, n: u64) -> (r: Option<(Vec<String>, usize)>)
    requires
        pos <= bytes@.len(),
    ensures
        match r {
            Some((v, p)) => pos <= p <= bytes@.len() && dec_str_n(
                bytes@.skip(pos as int),
                n as nat,
            ) == Some((v.deep_view(), bytes@.skip(p as int))),
            None => dec_str_n(bytes@.skip(pos as int), n as nat) is None,
        },
{
    let mut out: Vec<String> = Vec::new();
    let mut cur: usize = pos;
    let mut i: u64 = 0;
    proof {
        assert(out.deep_view() =~= Seq::<Seq<char>>::empty());
    }
    while i < n
        invariant
            pos <= cur <= bytes@.len(),
            i <= n,
            ({
                let full = dec_str_n(bytes@.skip(pos as int), n as nat);
                match dec_str_n(bytes@.skip(cur as int), (n - i) as nat) {
                    Some((t, r)) => full == Some((out.deep_view() + t, r)),
                    None => full is None,
                }
            }),
        decreases n - i,
    {
        let ghost prev_view = out.deep_view();
        match d_str(bytes, cur) {
            Some((s, p2)) => {
                proof {
                    let scur = bytes@.skip(cur as int);
                    let snext = bytes@.skip(p2 as int);
                    assert(dec_str_n(scur, (n - i) as nat) == (match dec_str_n(
                        snext,
                        (n - i - 1) as nat,
                    ) {
                        Some((t2, r2)) => Some((seq![s@] + t2, r2)),
                        None => None,
                    }));
                }
                out.push(s);
                proof {
                    assert(out.deep_view() =~= prev_view + seq![s@]);
                    let snext = bytes@.skip(p2 as int);
                    if dec_str_n(snext, (n - i - 1) as nat) is Some {
                        let (t2, r2) = dec_str_n(snext, (n - i - 1) as nat)->0;
                        assert(prev_view + (seq![s@] + t2) =~= out.deep_view() + t2);
                    }
                }
                cur = p2;
                i = i + 1;
            },
            None => {
                return None;
            },
        }
    }
    proof {
        assert(out.deep_view() + Seq::<Seq<char>>::empty() =~= out.deep_view());
    }
    Some((out, cur))
}

/// Read `n` service states.
fn d_state_n(bytes: &Vec<u8>, pos: usize, n: u64) -> (r: Option<(Vec<ServiceState>, usize)>)
    requires
        pos <= bytes@.len(),
    ensures
        match r {
            Some((v, p)) => pos <= p <= bytes@.len() && dec_state_n(
                bytes@.skip(pos as int),
                n as nat,
            ) == Some((v@, bytes@.skip(p as int))),
            None => dec_state_n(bytes@.skip(pos as int), n as nat) is None,
        },
{
    let mut out: Vec<ServiceState> = Vec::new();
    let mut cur: usize = pos;
    let mut i: u64 = 0;
    while i < n
        invariant
            pos <= cur <= bytes@.len(),
            i <= n,
            ({
                let full = dec_state_n(bytes@.skip(pos as int), n as nat);
                match dec_state_n(bytes@.skip(cur as int), (n - i) as nat) {
                    Some((t, r)) => full == Some((out@ + t, r)),
                    None => full is None,
                }
            }),
        decreases n - i,
    {
        let ghost prev_view = out@;
        match d_state(bytes, cur) {
            Some((st, p2)) => {
                proof {
                    let scur = bytes@.skip(cur as int);
                    let snext = bytes@.skip(p2 as int);
                    assert(dec_state_n(scur, (n - i) as nat) == (match dec_state_n(
                        snext,
                        (n - i - 1) as nat,
                    ) {
                        Some((t2, r2)) => Some((seq![st] + t2, r2)),
                        None => None,
                    }));
                }
                out.push(st);
                proof {
                    assert(out@ =~= prev_view + seq![st]);
                    let snext = bytes@.skip(p2 as int);
                    if dec_state_n(snext, (n - i - 1) as nat) is Some {
                        let (t2, r2) = dec_state_n(snext, (n - i - 1) as nat)->0;
                        assert(prev_view + (seq![st] + t2) =~= out@ + t2);
                    }
                }
                cur = p2;
                i = i + 1;
            },
            None => {
                return None;
            },
        }
    }
    proof {
        assert(out@ + Seq::<ServiceState>::empty() =~= out@);
    }
    Some((out, cur))
}

/// Read one service definition.
fn d_def(bytes: &Vec<u8>, pos: usize) -> (r: Option<(ServiceDefinition, usize)>)
    requires
        pos <= bytes@.len(),
    ensures
        match r {
            Some((d, p)) => pos <= p <= bytes@.len() && dec_def(bytes@.skip(pos as int)) == Some(
                (d@, bytes@.skip(p as int)),
            ),
            None => dec_def(bytes@.skip(pos as int)) is None,
        },
{
    let (service_name, p1) = match d_str(bytes, pos) {
        Some(x) => x,
        None => {
            return None;
        },
    };
    let (function_name, p2) = match d_str(bytes, p1) {
        Some(x) => x,
        None => {
            return None;
        },
    };
    let (command, p3) = match d_str(bytes, p2) {
        Some(x) => x,
        None => {
            return None;
        },
    };
    let (nargs, p4) = match d_u64(bytes, p3) {
        Some(x) => x,
        None => {
            return None;
        },
    };
    let (args, p5) = match d_str_n(bytes, p4, nargs) {
        Some(x) => x,
        None => {
            return None;
        },
    };
    let (interval, p6) = match d_u64(bytes, p5) {
        Some(x) => x,
        None => {
            return None;
        },
    };
    let (command_timeout, p7) = match d_u64(bytes, p6) {
        Some(x) => x,
        None => {
            return None;
        },
    };
    let (fall, p8) = match d_u32(bytes, p7) {
        Some(x) => x,
        None => {
            return None;
        },
    };
    let (rise, p9) = match d_u32(bytes, p8) {
        Some(x) => x,
        None => {
            return None;
        },
    };
    let d = ServiceDefinition {
        service_name,
        function_name,
        command,
        args,
        interval: crate::service::DurationMs { millis: interval },
        command_timeout: crate::service::DurationMs { millis: command_timeout },
        fall,
        rise,
    };
    Some((d, p9))
}

/// Read `n` service definitions.
fn d_def_n(bytes: &Vec<u8>, pos: usize, n: u64) -> (r: Option<(Vec<ServiceDefinition>, usize)>)
    requires
        pos <= bytes@.len(),
    ensures
        match r {
            Some((v, p)) => pos <= p <= bytes@.len() && dec_def_n(
                bytes@.skip(pos as int),
                n as nat,
            ) == Some((v.deep_view(), bytes@.skip(p as int))),
            None => dec_def_n(bytes@.skip(pos as int), n as nat) is None,
        },
{
    let mut out: Vec<ServiceDefinition> = Vec::new();
    let mut cur: usize = pos;
    let mut i: u64 = 0;
    proof {
        assert(out.deep_view() =~= Seq::<ServiceDefinitionView>::empty());
    }
    while i < n
        invariant
            pos <= cur <= bytes@.len(),
            i <= n,
            ({
                let full = dec_def_n(bytes@.skip(pos as int), n as nat);
                match dec_def_n(bytes@.skip(cur as int), (n - i) as nat) {
                    Some((t, r)) => full == Some((out.deep_view() + t, r)),
                    None => full is None,
                }
            }),
        decreases n - i,
    {
        let ghost prev_view = out.deep_view();
        match d_def(bytes, cur) {
            Some((d, p2)) => {
                proof {
                    let scur = bytes@.skip(cur as int);
                    let snext = bytes@.skip(p2 as int);
                    assert(dec_def_n(scur, (n - i) as nat) == (match dec_def_n(
                        snext,
                        (n - i - 1) as nat,
                    ) {
                        Some((t2, r2)) => Some((seq![d@] + t2, r2)),
                        None => None,
                    }));
                }
                out.push(d);
                proof {
                    assert(out.deep_view() =~= prev_view.push(out@.last()@));
                    let snext = bytes@.skip(p2 as int);
                    if dec_def_n(snext, (n - i - 1) as nat) is Some {
                        let (t2, r2) = dec_def_n(snext, (n - i - 1) as nat)->0;
                        assert(prev_view + (seq![out@.last()@] + t2) =~= out.deep_view() + t2);
                    }
                }
                cur = p2;
                i = i + 1;
            },
            None => {
                return None;
            },
        }
    }
    proof {
        assert(out.deep_view() + Seq::<ServiceDefinitionView>::empty() =~= out.deep_view());
    }
    Some((out, cur))
}

/// Read a whole configuration.
fn d_config(bytes: &Vec<u8>, pos: usize) -> (r: Option<(Config, usize)>)
    requires
        pos <= bytes@.len(),
    ensures
        match r {
            Some((c, p)) => pos <= p <= bytes@.len() && dec_config(bytes@.skip(pos as int))
                == Some((c@, bytes@.skip(p as int))),
            None => dec_config(bytes@.skip(pos as int)) is None,
        },
{
    let (path, p1) = match d_str(bytes, pos) {
        Some(x) => x,
        None => {
            return None;
        },
    };
    let (function_return_type, p2) = match d_bool(bytes, p1) {
        Some(x) => x,
        None => {
            return None;
        },
    };
    let (reload_command, p3) = match d_str(bytes, p2) {
        Some(x) => x,
        None => {
            return None;
        },
    };
    let (nargs, p4) = match d_u64(bytes, p3) {
        Some(x) => x,
        None => {
            return None;
        },
    };
    let (reload_command_args, p5) = match d_str_n(bytes, p4, nargs) {
        Some(x) => x,
        None => {
            return None;
        },
    };
    let (reload_timeout, p6) = match d_u64(bytes, p5) {
        Some(x) => x,
        None => {
            return None;
        },
    };
    let (ndefs, p7) = match d_u64(bytes, p6) {
        Some(x) => x,
        None => {
            return None;
        },
    };
    let (service_definitions, p8) = match d_def_n(bytes, p7, ndefs) {
        Some(x) => x,
        None => {
            return None;
        },
    };
    let c = Config {
        generated_file: crate::config::GeneratedFile { path, function_return_type },
        reload_command,
        reload_command_args,
        reload_timeout: crate::service::DurationMs { millis: reload_timeout },
        service_definitions,
    };
    Some((c, p8))
}

/// Decode a bundle from its compact binary wire form.  Succeeds exactly on
/// the byte strings that [`encode_bundle`] produces, consumed whole.
pub fn decode_bundle(bytes: &Vec<u8>) -> (r: Option<Bundle>)
    ensures
        match r {
            Some(b) => dec_bundle(bytes@) == Some(b@),
            None => dec_bundle(bytes@) is None,
        },
{
    proof {
        assert(bytes@.skip(0) =~= bytes@);
    }
    let (config, p1) = match d_config(bytes, 0) {
        Some(x) => x,
        None => {
            return None;
        },
    };
    let (nstates, p2) = match d_u64(bytes, p1) {
        Some(x) => x,
        None => {
            return None;
        },
    };
    let (service_states, p3) = match d_state_n(bytes, p2, nstates) {
        Some(x) => x,
        None => {
            return None;
        },
    };
    if p3 == bytes.len() {
        proof {
            assert(bytes@.skip(p3 as int).len() == 0);
        }
        Some(Bundle { config, service_states })
    } else {
        None
    }
}

} // verus!
