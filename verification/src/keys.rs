use vstd::prelude::*;

verus! {

/// The bytes of `{"policy":`.
pub open spec fn spec_policy_open() -> Seq<u8> {
    seq![0x7bu8, 0x22u8, 0x70u8, 0x6fu8, 0x6cu8, 0x69u8, 0x63u8, 0x79u8, 0x22u8, 0x3au8]
}

/// Appends the bytes of `{"policy":` to `out`.
pub fn push_policy_open(out: &mut Vec<u8>)
    ensures
        final(out)@ == old(out)@ + spec_policy_open(),
{
    out.push(0x7b);
    out.push(0x22);
    out.push(0x70);
    out.push(0x6f);
    out.push(0x6c);
    out.push(0x69);
    out.push(0x63);
    out.push(0x79);
    out.push(0x22);
    out.push(0x3a);
    assert(out@ =~= old(out)@ + spec_policy_open());
}

/// The bytes of `{"collection_interval":`.
pub open spec fn spec_interval_open() -> Seq<u8> {
    seq![0x7bu8, 0x22u8, 0x63u8, 0x6fu8, 0x6cu8, 0x6cu8, 0x65u8, 0x63u8, 0x74u8, 0x69u8, 0x6fu8, 0x6eu8, 0x5fu8, 0x69u8, 0x6eu8, 0x74u8, 0x65u8, 0x72u8, 0x76u8, 0x61u8, 0x6cu8, 0x22u8, 0x3au8]
}

/// Appends the bytes of `{"collection_interval":` to `out`.
pub fn push_interval_open(out: &mut Vec<u8>)
    ensures
        final(out)@ == old(out)@ + spec_interval_open(),
{
    out.push(0x7b);
    out.push(0x22);
    out.push(0x63);
    out.push(0x6f);
    out.push(0x6c);
    out.push(0x6c);
    out.push(0x65);
    out.push(0x63);
    out.push(0x74);
    out.push(0x69);
    out.push(0x6f);
    out.push(0x6e);
    out.push(0x5f);
    out.push(0x69);
    out.push(0x6e);
    out.push(0x74);
    out.push(0x65);
    out.push(0x72);
    out.push(0x76);
    out.push(0x61);
    out.push(0x6c);
    out.push(0x22);
    out.push(0x3a);
    assert(out@ =~= old(out)@ + spec_interval_open());
}

/// The bytes of `,"endpoint_role":`.
pub open spec fn spec_role_key() -> Seq<u8> {
    seq![0x2cu8, 0x22u8, 0x65u8, 0x6eu8, 0x64u8, 0x70u8, 0x6fu8, 0x69u8, 0x6eu8, 0x74u8, 0x5fu8, 0x72u8, 0x6fu8, 0x6cu8, 0x65u8, 0x22u8, 0x3au8]
}

/// Appends the bytes of `,"endpoint_role":` to `out`.
pub fn push_role_key(out: &mut Vec<u8>)
    ensures
        final(out)@ == old(out)@ + spec_role_key(),
{
    out.push(0x2c);
    out.push(0x22);
    out.push(0x65);
    out.push(0x6e);
    out.push(0x64);
    out.push(0x70);
    out.push(0x6f);
    out.push(0x69);
    out.push(0x6e);
    out.push(0x74);
    out.push(0x5f);
    out.push(0x72);
    out.push(0x6f);
    out.push(0x6c);
    out.push(0x65);
    out.push(0x22);
    out.push(0x3a);
    assert(out@ =~= old(out)@ + spec_role_key());
}

/// The bytes of `,"mode":`.
pub open spec fn spec_mode_key() -> Seq<u8> {
    seq![0x2cu8, 0x22u8, 0x6du8, 0x6fu8, 0x64u8, 0x65u8, 0x22u8, 0x3au8]
}

/// Appends the bytes of `,"mode":` to `out`.
pub fn push_mode_key(out: &mut Vec<u8>)
    ensures
        final(out)@ == old(out)@ + spec_mode_key(),
{
    out.push(0x2c);
    out.push(0x22);
    out.push(0x6d);
    out.push(0x6f);
    out.push(0x64);
    out.push(0x65);
    out.push(0x22);
    out.push(0x3a);
    assert(out@ =~= old(out)@ + spec_mode_key());
}

/// The bytes of `,"signature":`.
pub open spec fn spec_signature_key() -> Seq<u8> {
    seq![0x2cu8, 0x22u8, 0x73u8, 0x69u8, 0x67u8, 0x6eu8, 0x61u8, 0x74u8, 0x75u8, 0x72u8, 0x65u8, 0x22u8, 0x3au8]
}

/// Appends the bytes of `,"signature":` to `out`.
pub fn push_signature_key(out: &mut Vec<u8>)
    ensures
        final(out)@ == old(out)@ + spec_signature_key(),
{
    out.push(0x2c);
    out.push(0x22);
    out.push(0x73);
    out.push(0x69);
    out.push(0x67);
    out.push(0x6e);
    out.push(0x61);
    out.push(0x74);
    out.push(0x75);
    out.push(0x72);
    out.push(0x65);
    out.push(0x22);
    out.push(0x3a);
    assert(out@ =~= old(out)@ + spec_signature_key());
}

/// The bytes of `,"pubkey":`.
pub open spec fn spec_pubkey_key() -> Seq<u8> {
    seq![0x2cu8, 0x22u8, 0x70u8, 0x75u8, 0x62u8, 0x6bu8, 0x65u8, 0x79u8, 0x22u8, 0x3au8]
}

/// Appends the bytes of `,"pubkey":` to `out`.
pub fn push_pubkey_key(out: &mut Vec<u8>)
    ensures
        final(out)@ == old(out)@ + spec_pubkey_key(),
{
    out.push(0x2c);
    out.push(0x22);
    out.push(0x70);
    out.push(0x75);
    out.push(0x62);
    out.push(0x6b);
    out.push(0x65);
    out.push(0x79);
    out.push(0x22);
    out.push(0x3a);
    assert(out@ =~= old(out)@ + spec_pubkey_key());
}

/// The bytes of `{"hostname":`.
pub open spec fn spec_hostname_open() -> Seq<u8> {
    seq![0x7bu8, 0x22u8, 0x68u8, 0x6fu8, 0x73u8, 0x74u8, 0x6eu8, 0x61u8, 0x6du8, 0x65u8, 0x22u8, 0x3au8]
}

/// Appends the bytes of `{"hostname":` to `out`.
pub fn push_hostname_open(out: &mut Vec<u8>)
    ensures
        final(out)@ == old(out)@ + spec_hostname_open(),
{
    out.push(0x7b);
    out.push(0x22);
    out.push(0x68);
    out.push(0x6f);
    out.push(0x73);
    out.push(0x74);
    out.push(0x6e);
    out.push(0x61);
    out.push(0x6d);
    out.push(0x65);
    out.push(0x22);
    out.push(0x3a);
    assert(out@ =~= old(out)@ + spec_hostname_open());
}

/// The bytes of `,"timestamp":`.
pub open spec fn spec_timestamp_key() -> Seq<u8> {
    seq![0x2cu8, 0x22u8, 0x74u8, 0x69u8, 0x6du8, 0x65u8, 0x73u8, 0x74u8, 0x61u8, 0x6du8, 0x70u8, 0x22u8, 0x3au8]
}

/// Appends the bytes of `,"timestamp":` to `out`.
pub fn push_timestamp_key(out: &mut Vec<u8>)
    ensures
        final(out)@ == old(out)@ + spec_timestamp_key(),
{
    out.push(0x2c);
    out.push(0x22);
    out.push(0x74);
    out.push(0x69);
    out.push(0x6d);
    out.push(0x65);
    out.push(0x73);
    out.push(0x74);
    out.push(0x61);
    out.push(0x6d);
    out.push(0x70);
    out.push(0x22);
    out.push(0x3a);
    assert(out@ =~= old(out)@ + spec_timestamp_key());
}

/// The bytes of `,"payload":`.
pub open spec fn spec_payload_key() -> Seq<u8> {
    seq![0x2cu8, 0x22u8, 0x70u8, 0x61u8, 0x79u8, 0x6cu8, 0x6fu8, 0x61u8, 0x64u8, 0x22u8, 0x3au8]
}

/// Appends the bytes of `,"payload":` to `out`.
pub fn push_payload_key(out: &mut Vec<u8>)
    ensures
        final(out)@ == old(out)@ + spec_payload_key(),
{
    out.push(0x2c);
    out.push(0x22);
    out.push(0x70);
    out.push(0x61);
    out.push(0x79);
    out.push(0x6c);
    out.push(0x6f);
    out.push(0x61);
    out.push(0x64);
    out.push(0x22);
    out.push(0x3a);
    assert(out@ =~= old(out)@ + spec_payload_key());
}

/// The bytes of `{"pid":`.
pub open spec fn spec_pid_open() -> Seq<u8> {
    seq![0x7bu8, 0x22u8, 0x70u8, 0x69u8, 0x64u8, 0x22u8, 0x3au8]
}

/// Appends the bytes of `{"pid":` to `out`.
pub fn push_pid_open(out: &mut Vec<u8>)
    ensures
        final(out)@ == old(out)@ + spec_pid_open(),
{
    out.push(0x7b);
    out.push(0x22);
    out.push(0x70);
    out.push(0x69);
    out.push(0x64);
    out.push(0x22);
    out.push(0x3a);
    assert(out@ =~= old(out)@ + spec_pid_open());
}

/// The bytes of `,"name":`.
pub open spec fn spec_name_key() -> Seq<u8> {
    seq![0x2cu8, 0x22u8, 0x6eu8, 0x61u8, 0x6du8, 0x65u8, 0x22u8, 0x3au8]
}

/// Appends the bytes of `,"name":` to `out`.
pub fn push_name_key(out: &mut Vec<u8>)
    ensures
        final(out)@ == old(out)@ + spec_name_key(),
{
    out.push(0x2c);
    out.push(0x22);
    out.push(0x6e);
    out.push(0x61);
    out.push(0x6d);
    out.push(0x65);
    out.push(0x22);
    out.push(0x3a);
    assert(out@ =~= old(out)@ + spec_name_key());
}

/// The bytes of `,"cmd":`.
pub open spec fn spec_cmd_key() -> Seq<u8> {
    seq![0x2cu8, 0x22u8, 0x63u8, 0x6du8, 0x64u8, 0x22u8, 0x3au8]
}

/// Appends the bytes of `,"cmd":` to `out`.
pub fn push_cmd_key(out: &mut Vec<u8>)
    ensures
        final(out)@ == old(out)@ + spec_cmd_key(),
{
    out.push(0x2c);
    out.push(0x22);
    out.push(0x63);
    out.push(0x6d);
    out.push(0x64);
    out.push(0x22);
    out.push(0x3a);
    assert(out@ =~= old(out)@ + spec_cmd_key());
}

/// The bytes of `,"memory":`.
pub open spec fn spec_memory_key() -> Seq<u8> {
    seq![0x2cu8, 0x22u8, 0x6du8, 0x65u8, 0x6du8, 0x6fu8, 0x72u8, 0x79u8, 0x22u8, 0x3au8]
}

/// Appends the bytes of `,"memory":` to `out`.
pub fn push_memory_key(out: &mut Vec<u8>)
    ensures
        final(out)@ == old(out)@ + spec_memory_key(),
{
    out.push(0x2c);
    out.push(0x22);
    out.push(0x6d);
    out.push(0x65);
    out.push(0x6d);
    out.push(0x6f);
    out.push(0x72);
    out.push(0x79);
    out.push(0x22);
    out.push(0x3a);
    assert(out@ =~= old(out)@ + spec_memory_key());
}

/// The bytes of `,"cpu_usage":`.
pub open spec fn spec_cpu_key() -> Seq<u8> {
    seq![0x2cu8, 0x22u8, 0x63u8, 0x70u8, 0x75u8, 0x5fu8, 0x75u8, 0x73u8, 0x61u8, 0x67u8, 0x65u8, 0x22u8, 0x3au8]
}

/// Appends the bytes of `,"cpu_usage":` to `out`.
pub fn push_cpu_key(out: &mut Vec<u8>)
    ensures
        final(out)@ == old(out)@ + spec_cpu_key(),
{
    out.push(0x2c);
    out.push(0x22);
    out.push(0x63);
    out.push(0x70);
    out.push(0x75);
    out.push(0x5f);
    out.push(0x75);
    out.push(0x73);
    out.push(0x61);
    out.push(0x67);
    out.push(0x65);
    out.push(0x22);
    out.push(0x3a);
    assert(out@ =~= old(out)@ + spec_cpu_key());
}

/// The bytes of `,"status":`.
pub open spec fn spec_status_key() -> Seq<u8> {
    seq![0x2cu8, 0x22u8, 0x73u8, 0x74u8, 0x61u8, 0x74u8, 0x75u8, 0x73u8, 0x22u8, 0x3au8]
}

/// Appends the bytes of `,"status":` to `out`.
pub fn push_status_key(out: &mut Vec<u8>)
    ensures
        final(out)@ == old(out)@ + spec_status_key(),
{
    out.push(0x2c);
    out.push(0x22);
    out.push(0x73);
    out.push(0x74);
    out.push(0x61);
    out.push(0x74);
    out.push(0x75);
    out.push(0x73);
    out.push(0x22);
    out.push(0x3a);
    assert(out@ =~= old(out)@ + spec_status_key());
}

/// The bytes of `,"process_name":`.
pub open spec fn spec_pname_key() -> Seq<u8> {
    seq![0x2cu8, 0x22u8, 0x70u8, 0x72u8, 0x6fu8, 0x63u8, 0x65u8, 0x73u8, 0x73u8, 0x5fu8, 0x6eu8, 0x61u8, 0x6du8, 0x65u8, 0x22u8, 0x3au8]
}

/// Appends the bytes of `,"process_name":` to `out`.
pub fn push_pname_key(out: &mut Vec<u8>)
    ensures
        final(out)@ == old(out)@ + spec_pname_key(),
{
    out.push(0x2c);
    out.push(0x22);
    out.push(0x70);
    out.push(0x72);
    out.push(0x6f);
    out.push(0x63);
    out.push(0x65);
    out.push(0x73);
    out.push(0x73);
    out.push(0x5f);
    out.push(0x6e);
    out.push(0x61);
    out.push(0x6d);
    out.push(0x65);
    out.push(0x22);
    out.push(0x3a);
    assert(out@ =~= old(out)@ + spec_pname_key());
}

/// The bytes of `,"local_address":`.
pub open spec fn spec_local_address_key() -> Seq<u8> {
    seq![0x2cu8, 0x22u8, 0x6cu8, 0x6fu8, 0x63u8, 0x61u8, 0x6cu8, 0x5fu8, 0x61u8, 0x64u8, 0x64u8, 0x72u8, 0x65u8, 0x73u8, 0x73u8, 0x22u8, 0x3au8]
}

/// Appends the bytes of `,"local_address":` to `out`.
pub fn push_local_address_key(out: &mut Vec<u8>)
    ensures
        final(out)@ == old(out)@ + spec_local_address_key(),
{
    out.push(0x2c);
    out.push(0x22);
    out.push(0x6c);
    out.push(0x6f);
    out.push(0x63);
    out.push(0x61);
    out.push(0x6c);
    out.push(0x5f);
    out.push(0x61);
    out.push(0x64);
    out.push(0x64);
    out.push(0x72);
    out.push(0x65);
    out.push(0x73);
    out.push(0x73);
    out.push(0x22);
    out.push(0x3a);
    assert(out@ =~= old(out)@ + spec_local_address_key());
}

/// The bytes of `,"remote_address":`.
pub open spec fn spec_remote_address_key() -> Seq<u8> {
    seq![0x2cu8, 0x22u8, 0x72u8, 0x65u8, 0x6du8, 0x6fu8, 0x74u8, 0x65u8, 0x5fu8, 0x61u8, 0x64u8, 0x64u8, 0x72u8, 0x65u8, 0x73u8, 0x73u8, 0x22u8, 0x3au8]
}

/// Appends the bytes of `,"remote_address":` to `out`.
pub fn push_remote_address_key(out: &mut Vec<u8>)
    ensures
        final(out)@ == old(out)@ + spec_remote_address_key(),
{
    out.push(0x2c);
    out.push(0x22);
    out.push(0x72);
    out.push(0x65);
    out.push(0x6d);
    out.push(0x6f);
    out.push(0x74);
    out.push(0x65);
    out.push(0x5f);
    out.push(0x61);
    out.push(0x64);
    out.push(0x64);
    out.push(0x72);
    out.push(0x65);
    out.push(0x73);
    out.push(0x73);
    out.push(0x22);
    out.push(0x3a);
    assert(out@ =~= old(out)@ + spec_remote_address_key());
}

/// The bytes of `,"protocol":`.
pub open spec fn spec_protocol_key() -> Seq<u8> {
    seq![0x2cu8, 0x22u8, 0x70u8, 0x72u8, 0x6fu8, 0x74u8, 0x6fu8, 0x63u8, 0x6fu8, 0x6cu8, 0x22u8, 0x3au8]
}

/// Appends the bytes of `,"protocol":` to `out`.
pub fn push_protocol_key(out: &mut Vec<u8>)
    ensures
        final(out)@ == old(out)@ + spec_protocol_key(),
{
    out.push(0x2c);
    out.push(0x22);
    out.push(0x70);
    out.push(0x72);
    out.push(0x6f);
    out.push(0x74);
    out.push(0x6f);
    out.push(0x63);
    out.push(0x6f);
    out.push(0x6c);
    out.push(0x22);
    out.push(0x3a);
    assert(out@ =~= old(out)@ + spec_protocol_key());
}

/// The bytes of `{"path":`.
pub open spec fn spec_path_open() -> Seq<u8> {
    seq![0x7bu8, 0x22u8, 0x70u8, 0x61u8, 0x74u8, 0x68u8, 0x22u8, 0x3au8]
}

/// Appends the bytes of `{"path":` to `out`.
pub fn push_path_open(out: &mut Vec<u8>)
    ensures
        final(out)@ == old(out)@ + spec_path_open(),
{
    out.push(0x7b);
    out.push(0x22);
    out.push(0x70);
    out.push(0x61);
    out.push(0x74);
    out.push(0x68);
    out.push(0x22);
    out.push(0x3a);
    assert(out@ =~= old(out)@ + spec_path_open());
}

/// The bytes of `,"kind":`.
pub open spec fn spec_kind_key() -> Seq<u8> {
    seq![0x2cu8, 0x22u8, 0x6bu8, 0x69u8, 0x6eu8, 0x64u8, 0x22u8, 0x3au8]
}

/// Appends the bytes of `,"kind":` to `out`.
pub fn push_kind_key(out: &mut Vec<u8>)
    ensures
        final(out)@ == old(out)@ + spec_kind_key(),
{
    out.push(0x2c);
    out.push(0x22);
    out.push(0x6b);
    out.push(0x69);
    out.push(0x6e);
    out.push(0x64);
    out.push(0x22);
    out.push(0x3a);
    assert(out@ =~= old(out)@ + spec_kind_key());
}

} // verus!
