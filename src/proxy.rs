use vstd::prelude::*;

use crate::params::{
    find_param, has_key, lemma_with_param, lemma_without_key, lemma_without_key_keeps,
    param_lookup, without_key, remove_param,
    set_param, Param, ParamValue,
};
use crate::shm::{placement, span_fits, written, ShmError, ShmManager};

verus! {

/// Name of the parameter that tells the worker where an input's bytes start in
/// the host-to-device region.
pub open spec fn h2d_offset_key() -> Seq<char> {
    "__shm_h2d_offset__"@
}

/// Name of the parameter that tells the worker how many bytes an input has in
/// the host-to-device region.
pub open spec fn h2d_len_key() -> Seq<char> {
    "__shm_h2d_len__"@
}

/// Name of the parameter by which the worker says where an output's bytes
/// start in the device-to-host region.
pub open spec fn d2h_offset_key() -> Seq<char> {
    "__shm_d2h_offset__"@
}

/// Name of the parameter by which the worker says how many bytes an output has
/// in the device-to-host region.
pub open spec fn d2h_len_key() -> Seq<char> {
    "__shm_d2h_len__"@
}

/// Whether `key` is one of the names kept for shared-memory references.
pub open spec fn is_reserved(key: Seq<char>) -> bool {
    key == h2d_offset_key() || key == h2d_len_key() || key == d2h_offset_key() || key
        == d2h_len_key()
}

pub fn h2d_offset_key_string() -> (r: String)
    ensures
        r@ == h2d_offset_key(),
{
    "__shm_h2d_offset__".to_owned()
}

pub fn h2d_len_key_string() -> (r: String)
    ensures
        r@ == h2d_len_key(),
{
    "__shm_h2d_len__".to_owned()
}

pub fn d2h_offset_key_string() -> (r: String)
    ensures
        r@ == d2h_offset_key(),
{
    "__shm_d2h_offset__".to_owned()
}

pub fn d2h_len_key_string() -> (r: String)
    ensures
        r@ == d2h_len_key(),
{
    "__shm_d2h_len__".to_owned()
}

proof fn lemma_reserved_keys_differ()
    ensures
        h2d_offset_key() != h2d_len_key(),
        d2h_offset_key() != d2h_len_key(),
{
    reveal_strlit("__shm_h2d_offset__");
    reveal_strlit("__shm_h2d_len__");
    reveal_strlit("__shm_d2h_offset__");
    reveal_strlit("__shm_d2h_len__");
    assert(h2d_offset_key()[6] != h2d_len_key()[6] || h2d_offset_key().len() != h2d_len_key().len());
    assert(d2h_offset_key().len() != d2h_len_key().len());
}

/// One named input tensor of an inference call.
#[derive(Debug, Clone, PartialEq, Eq)]
pub struct InferInput {
    pub name: String,
    pub datatype: String,
    pub shape: Vec<i64>,
    pub parameters: Vec<Param>,
}

/// An inference call as the node receives and forwards it. Each entry of
/// `raw_input_contents` holds the bytes of the input of the same position.
#[derive(Debug, Clone, PartialEq, Eq)]
pub struct InferRequest {
    pub model_name: String,
    pub model_version: String,
    pub id: String,
    pub inputs: Vec<InferInput>,
    pub raw_input_contents: Vec<Vec<u8>>,
}

/// One named output tensor of an inference result; `bytes_contents` holds its
/// payloads where it carries any.
#[derive(Debug, Clone, PartialEq, Eq)]
pub struct InferOutput {
    pub name: String,
    pub datatype: String,
    pub shape: Vec<i64>,
    pub parameters: Vec<Param>,
    pub bytes_contents: Option<Vec<Vec<u8>>>,
}

/// The result of an inference call.
#[derive(Debug, Clone, PartialEq, Eq)]
pub struct InferResponse {
    pub model_name: String,
    pub model_version: String,
    pub id: String,
    pub outputs: Vec<InferOutput>,
    pub raw_output_contents: Vec<Vec<u8>>,
}

/// Why the proxy refused to pass a call or a result on.
#[derive(Debug, Clone, PartialEq, Eq)]
pub enum ProxyError {
    /// A caller's input carries a parameter name kept for shared-memory
    /// references.
    ReservedParameter,
    /// The payload could not be placed in the host-to-device region.
    Shm(ShmError),
    /// The worker's reference is incomplete, not a pair of integers, or
    /// negative.
    InvalidReference,
    /// The worker's reference points outside the device-to-host region.
    ReferenceOutOfBounds { offset: i64, len: i64, capacity: usize },
}

/// Whether some entry of `ps` has a reserved name.
pub open spec fn has_reserved(ps: Seq<Param>) -> bool {
    exists|j: int| 0 <= j < ps.len() && is_reserved(#[trigger] ps[j].key@)
}

/// Whether some input of `inputs` has a parameter with a reserved name.
pub open spec fn inputs_have_reserved(inputs: Seq<InferInput>) -> bool {
    exists|i: int| 0 <= i < inputs.len() && has_reserved(#[trigger] inputs[i].parameters@)
}

fn is_reserved_key(key: &String) -> (r: bool)
    ensures
        r == is_reserved(key@),
{
    *key == h2d_offset_key_string() || *key == h2d_len_key_string() || *key
        == d2h_offset_key_string() || *key == d2h_len_key_string()
}

fn params_have_reserved(ps: &Vec<Param>) -> (r: bool)
    ensures
        r == has_reserved(ps@),
{
    let mut j: usize = 0;
    while j < ps.len()
        invariant
            j <= ps@.len(),
            forall|t: int| 0 <= t < j ==> !is_reserved(#[trigger] ps@[t].key@),
        decreases ps@.len() - j,
    {
        if is_reserved_key(&ps[j].key) {
            return true;
        }
        j = j + 1;
    }
    false
}

/// Whether a caller's inputs use a name kept for shared-memory references.
pub fn carries_reserved(inputs: &Vec<InferInput>) -> (r: bool)
    ensures
        r == inputs_have_reserved(inputs@),
{
    let mut i: usize = 0;
    while i < inputs.len()
        invariant
            i <= inputs@.len(),
            forall|t: int| 0 <= t < i ==> !has_reserved(#[trigger] inputs@[t].parameters@),
        decreases inputs@.len() - i,
    {
        if params_have_reserved(&inputs[i].parameters) {
            return true;
        }
        i = i + 1;
    }
    false
}

/// The parameters `ps` of the first input after staging: the reference to the
/// payload at `start` of `len` bytes is set, every other name keeps its value.
pub open spec fn staged_params(ps: Seq<Param>, out: Seq<Param>, start: int, len: int) -> bool {
    &&& param_lookup(out, h2d_offset_key()) == Some(ParamValue::Int64(start as i64))
    &&& param_lookup(out, h2d_len_key()) == Some(ParamValue::Int64(len as i64))
    &&& forall|k: Seq<char>|
        k != h2d_offset_key() && k != h2d_len_key() ==> #[trigger] param_lookup(out, k)
            == param_lookup(ps, k)
}

/// Moves the first inline payload of `req` into the host-to-device region and
/// puts a reference to it in the first input's parameters in its place, so
/// the call goes to the worker without inline bytes. A call without inline
/// bytes passes unchanged. A call whose inputs already use a reserved name is
/// refused, as is a payload longer than the region; nothing changes then.
pub fn stage_inputs(shm: &mut ShmManager, region: &mut [u8], req: InferRequest) -> (r: Result<
    InferRequest,
    ProxyError,
>)
    requires
        old(shm).wf(),
        old(region)@.len() == old(shm).h2d_cursor().capacity_spec(),
    ensures
        final(shm).wf(),
        final(shm).d2h_capacity_spec() == old(shm).d2h_capacity_spec(),
        final(shm).h2d_cursor().capacity_spec() == old(shm).h2d_cursor().capacity_spec(),
        r is Ok <==> {
            &&& !inputs_have_reserved(req.inputs@)
            &&& req.raw_input_contents@.len() > 0 ==> req.raw_input_contents@[0]@.len()
                <= old(shm).h2d_cursor().capacity_spec()
        },
        inputs_have_reserved(req.inputs@) ==> r == Err::<InferRequest, ProxyError>(
            ProxyError::ReservedParameter,
        ),
        (r is Err || req.raw_input_contents@.len() == 0) ==> *final(shm) == *old(shm)
            && final(region)@ == old(region)@,
        r is Ok && req.raw_input_contents@.len() == 0 ==> r == Ok::<InferRequest, ProxyError>(
            req,
        ),
        !inputs_have_reserved(req.inputs@) && req.raw_input_contents@.len() > 0
            && req.raw_input_contents@[0]@.len() > old(shm).h2d_cursor().capacity_spec() ==> r
            == Err::<InferRequest, ProxyError>(
            ProxyError::Shm(
                ShmError::PayloadTooLarge {
                    len: req.raw_input_contents@[0]@.len() as usize,
                    capacity: old(shm).h2d_cursor().capacity_spec() as usize,
                },
            ),
        ),
        match r {
            Ok(out) => req.raw_input_contents@.len() > 0 ==> {
                let data = req.raw_input_contents@[0]@;
                let start = placement(
                    old(shm).h2d_cursor().offset_spec(),
                    old(shm).h2d_cursor().capacity_spec(),
                    data.len(),
                );
                &&& final(shm).h2d_cursor().offset_spec() == start + data.len()
                &&& final(region)@ == written(old(region)@, start, data)
                &&& final(region)@.subrange(start as int, (start + data.len()) as int) == data
                &&& out.raw_input_contents@.len() == 0
                &&& out.model_name == req.model_name
                &&& out.model_version == req.model_version
                &&& out.id == req.id
                &&& out.inputs@.len() == req.inputs@.len()
                &&& forall|i: int| 1 <= i < out.inputs@.len() ==> out.inputs@[i] == req.inputs@[i]
                &&& out.inputs@.len() > 0 ==> {
                    &&& out.inputs@[0].name == req.inputs@[0].name
                    &&& out.inputs@[0].datatype == req.inputs@[0].datatype
                    &&& out.inputs@[0].shape == req.inputs@[0].shape
                    &&& staged_params(
                        req.inputs@[0].parameters@,
                        out.inputs@[0].parameters@,
                        start as int,
                        data.len() as int,
                    )
                }
            },
            Err(_) => true,
        },
{
    if carries_reserved(&req.inputs) {
        return Err(ProxyError::ReservedParameter);
    }
    if req.raw_input_contents.len() == 0 {
        return Ok(req);
    }
    let InferRequest { model_name, model_version, id, inputs, raw_input_contents } = req;
    let ghost old_inputs = inputs@;
    let ghost data = raw_input_contents@[0]@;
    let placed = shm.write_h2d(region, raw_input_contents[0].as_slice());
    let (start, len) = match placed {
        Ok(p) => p,
        Err(e) => {
            return Err(ProxyError::Shm(e));
        },
    };
    assert(region@.subrange(start as int, (start + data.len()) as int) =~= data);
    let mut inputs = inputs;
    if inputs.len() > 0 {
        let first = inputs.remove(0);
        let InferInput { name, datatype, shape, parameters } = first;
        let ghost ps = parameters@;
        let off_key = h2d_offset_key_string();
        let len_key = h2d_len_key_string();
        let ghost off_value = ParamValue::Int64(start as i64);
        let ghost len_value = ParamValue::Int64(len as i64);
        let with_off = set_param(parameters, off_key, ParamValue::Int64(start as i64));
        let ghost mid = with_off@;
        let with_len = set_param(with_off, len_key, ParamValue::Int64(len as i64));
        proof {
            lemma_reserved_keys_differ();
            lemma_with_param(ps, off_key, off_value, h2d_len_key());
            lemma_with_param(mid, len_key, len_value, h2d_offset_key());
            assert forall|k: Seq<char>|
                k != h2d_offset_key() && k != h2d_len_key() implies #[trigger] param_lookup(
                with_len@,
                k,
            ) == param_lookup(ps, k) by {
                lemma_with_param(ps, off_key, off_value, k);
                lemma_with_param(mid, len_key, len_value, k);
            }
        }
        inputs.insert(0, InferInput { name, datatype, shape, parameters: with_len });
        assert forall|i: int| 1 <= i < inputs@.len() implies inputs@[i] == old_inputs[i] by {}
    }
    Ok(InferRequest { model_name, model_version, id, inputs, raw_input_contents: Vec::new() })
}

/// The span `(offset, len)` that the parameters `ps` of an output point at in
/// the device-to-host region, where both names hold non-negative integers.
pub open spec fn d2h_span(ps: Seq<Param>) -> Option<(int, int)> {
    match (param_lookup(ps, d2h_offset_key()), param_lookup(ps, d2h_len_key())) {
        (Some(ParamValue::Int64(o)), Some(ParamValue::Int64(l))) => if o >= 0 && l >= 0 {
            Some((o as int, l as int))
        } else {
            None
        },
        _ => None,
    }
}

/// Whether the parameters `ps` of an output carry no device-to-host reference.
pub open spec fn d2h_absent(ps: Seq<Param>) -> bool {
    param_lookup(ps, d2h_offset_key()) is None && param_lookup(ps, d2h_len_key()) is None
}

/// `ps` without the device-to-host reference.
pub open spec fn without_d2h(ps: Seq<Param>, out: Seq<Param>) -> bool {
    &&& !has_key(out, d2h_offset_key())
    &&& !has_key(out, d2h_len_key())
    &&& forall|k: Seq<char>|
        k != d2h_offset_key() && k != d2h_len_key() ==> #[trigger] param_lookup(out, k)
            == param_lookup(ps, k)
}

/// Brings the worker's result back to the caller. Where the first output
/// points at bytes in the device-to-host region, those bytes are read out and
/// appended to its payloads, and the reference is taken off its parameters. A
/// result without such a reference passes unchanged. A reference that is
/// incomplete, not made of integers, negative, or outside the region fails the
/// call.
pub fn restore_outputs(shm: &ShmManager, region: &[u8], resp: InferResponse) -> (r: Result<
    InferResponse,
    ProxyError,
>)
    requires
        region@.len() == shm.d2h_capacity_spec(),
    ensures
        resp.outputs@.len() == 0 || d2h_absent(resp.outputs@[0].parameters@) ==> r == Ok::<
            InferResponse,
            ProxyError,
        >(resp),
        resp.outputs@.len() > 0 && !d2h_absent(resp.outputs@[0].parameters@) ==> match d2h_span(
            resp.outputs@[0].parameters@,
        ) {
            None => r == Err::<InferResponse, ProxyError>(ProxyError::InvalidReference),
            Some((o, l)) => if !span_fits(o as nat, l as nat, shm.d2h_capacity_spec()) {
                r == Err::<InferResponse, ProxyError>(
                    ProxyError::ReferenceOutOfBounds {
                        offset: o as i64,
                        len: l as i64,
                        capacity: shm.d2h_capacity_spec() as usize,
                    },
                )
            } else {
                &&& r is Ok
                &&& restored(resp, r->Ok_0, region@.subrange(o, o + l))
            },
        },
{
    if resp.outputs.len() == 0 {
        return Ok(resp);
    }
    let off_key = d2h_offset_key_string();
    let len_key = d2h_len_key_string();
    let off_at = find_param(&resp.outputs[0].parameters, &off_key);
    let len_at = find_param(&resp.outputs[0].parameters, &len_key);
    if off_at.is_none() && len_at.is_none() {
        return Ok(resp);
    }
    let (o, l) = match (off_at, len_at) {
        (Some(i), Some(j)) => match (&resp.outputs[0].parameters[i].value, &resp.outputs[0].parameters[j].value) {
            (ParamValue::Int64(o), ParamValue::Int64(l)) => (*o, *l),
            _ => {
                return Err(ProxyError::InvalidReference);
            },
        },
        _ => {
            return Err(ProxyError::InvalidReference);
        },
    };
    if o < 0 || l < 0 {
        return Err(ProxyError::InvalidReference);
    }
    let capacity = shm.d2h_capacity();
    if o as u64 > capacity as u64 || l as u64 > capacity as u64 - o as u64 {
        return Err(ProxyError::ReferenceOutOfBounds { offset: o, len: l, capacity });
    }
    let bytes = match shm.read_d2h(region, o as usize, l as usize) {
        Ok(b) => b,
        Err(_) => {
            return Err(ProxyError::ReferenceOutOfBounds { offset: o, len: l, capacity });
        },
    };
    let InferResponse { model_name, model_version, id, outputs, raw_output_contents } = resp;
    let ghost old_outputs = outputs@;
    let mut outputs = outputs;
    let first = outputs.remove(0);
    let InferOutput { name, datatype, shape, parameters, bytes_contents } = first;
    let ghost ps = parameters@;
    let mut contents = match bytes_contents {
        Some(c) => c,
        None => Vec::new(),
    };
    let ghost before = contents@;
    contents.push(bytes);
    let cleared = remove_param(remove_param(parameters, &off_key), &len_key);
    proof {
        let w = without_key(ps, d2h_offset_key());
        lemma_reserved_keys_differ();
        lemma_without_key(ps, d2h_offset_key(), d2h_len_key());
        lemma_without_key(w, d2h_len_key(), d2h_offset_key());
        assert forall|k: Seq<char>|
            k != d2h_offset_key() && k != d2h_len_key() implies #[trigger] param_lookup(
            cleared@,
            k,
        ) == param_lookup(ps, k) by {
            lemma_without_key(ps, d2h_offset_key(), k);
            lemma_without_key(w, d2h_len_key(), k);
        }
        lemma_without_key_keeps(w, d2h_len_key(), d2h_offset_key());
    }
    outputs.insert(
        0,
        InferOutput { name, datatype, shape, parameters: cleared, bytes_contents: Some(contents) },
    );
    assert forall|i: int| 1 <= i < outputs@.len() implies outputs@[i] == old_outputs[i] by {}
    Ok(InferResponse { model_name, model_version, id, outputs, raw_output_contents })
}

/// `out` is `resp` with `bytes` appended to the payloads of its first output and
/// the device-to-host reference taken off that output's parameters.
pub open spec fn restored(resp: InferResponse, out: InferResponse, bytes: Seq<u8>) -> bool {
    let before = resp.outputs@[0];
    let after = out.outputs@[0];
    let old_contents = match before.bytes_contents {
        Some(c) => c@,
        None => Seq::empty(),
    };
    &&& out.model_name == resp.model_name
    &&& out.model_version == resp.model_version
    &&& out.id == resp.id
    &&& out.raw_output_contents == resp.raw_output_contents
    &&& out.outputs@.len() == resp.outputs@.len()
    &&& forall|i: int| 1 <= i < out.outputs@.len() ==> out.outputs@[i] == resp.outputs@[i]
    &&& after.name == before.name
    &&& after.datatype == before.datatype
    &&& after.shape == before.shape
    &&& without_d2h(before.parameters@, after.parameters@)
    &&& after.bytes_contents is Some
    &&& after.bytes_contents->Some_0@.len() == old_contents.len() + 1
    &&& forall|i: int|
        0 <= i < old_contents.len() ==> after.bytes_contents->Some_0@[i] == old_contents[i]
    &&& after.bytes_contents->Some_0@[old_contents.len() as int]@ == bytes
}

proof fn lemma_no_key_no_value(ps: Seq<Param>, key: Seq<char>)
    requires
        !has_key(ps, key),
    ensures
        param_lookup(ps, key) is None,
    decreases ps.len(),
{
    if ps.len() > 0 {
        assert(ps[ps.len() - 1].key@ != key);
        assert forall|i: int| 0 <= i < ps.drop_last().len() implies #[trigger] ps.drop_last()[i].key@
            != key by {
            assert(ps[i].key@ != key);
        }
        lemma_no_key_no_value(ps.drop_last(), key);
    }
}

/// Payload rewriting round trip. On the way in, the reference that staging
/// puts on the first input leads back, in the region as staging left it, to
/// exactly the bytes the caller sent inline. On the way out, the restored
/// first output carries the bytes read at the worker's reference as its last
/// payload, and no reference is left on it.
pub proof fn law_payload_round_trip(
    region: Seq<u8>,
    start: nat,
    data: Seq<u8>,
    ps: Seq<Param>,
    staged: Seq<Param>,
    resp: InferResponse,
    out: InferResponse,
    bytes: Seq<u8>,
)
    requires
        start + data.len() <= region.len(),
        region.len() <= i64::MAX,
        staged_params(ps, staged, start as int, data.len() as int),
        resp.outputs@.len() > 0,
        restored(resp, out, bytes),
    ensures
        match (param_lookup(staged, h2d_offset_key()), param_lookup(staged, h2d_len_key())) {
            (Some(ParamValue::Int64(o)), Some(ParamValue::Int64(l))) => written(
                region,
                start,
                data,
            ).subrange(o as int, o + l) == data,
            _ => false,
        },
        d2h_absent(out.outputs@[0].parameters@),
        out.outputs@[0].bytes_contents->Some_0@.last()@ == bytes,
{
    assert(written(region, start, data).subrange(start as int, (start + data.len()) as int)
        =~= data);
    lemma_no_key_no_value(out.outputs@[0].parameters@, d2h_offset_key());
    lemma_no_key_no_value(out.outputs@[0].parameters@, d2h_len_key());
}

} // verus!
