//! Pricing of a proxied call in cycles.
//!
//! A call is priced in three parts: the ingress message, each outgoing request,
//! and each response. Every price is the exact value of its formula, or the
//! largest 128-bit integer where the formula exceeds it.

use vstd::prelude::*;
use vstd::utf8::encode_utf8;
use crate::agent::{
    header_views, HttpHeader, HttpHeaderView, HttpRequest, HttpRequestView, HttpResponse,
    HttpResponseView,
};

verus! {

/// Cycles charged per node for receiving an ingress message.
pub const INGRESS_MESSAGE_RECEIVED_COST: u64 = 1_200_000;

/// Cycles charged per node for every byte of an ingress message.
pub const INGRESS_MESSAGE_BYTE_RECEIVED_COST: u64 = 2_000;

/// Cycles charged per node for an outgoing request.
pub const HTTP_OUTCALL_REQUEST_BASE_COST: u64 = 3_000_000;

/// Cycles charged per node of the subnet for an outgoing request, on every node.
pub const HTTP_OUTCALL_REQUEST_PER_NODE_COST: u64 = 60_000;

/// Cycles charged per node for every byte of an outgoing request.
pub const HTTP_OUTCALL_REQUEST_COST_PER_BYTE: u64 = 400;

/// Cycles charged per node for every byte of a response.
pub const HTTP_OUTCALL_RESPONSE_COST_PER_BYTE: u64 = 800;

/// Bytes that are added to every outgoing request on its way.
pub const HTTP_OUTCALL_REQUEST_OVERHEAD_BYTES: u64 = 150;

/// Cycles charged per node for operating the service.
pub const CANISTER_OVERHEAD: u64 = 1_000_000;

/// Bytes counted for a header besides its name and its value.
pub const HEADER_OVERHEAD_BYTES: usize = 3;

/// Bytes counted for a response besides its body and its headers.
pub const RESPONSE_OVERHEAD_BYTES: usize = 4;

/// Price calculator. `subnet_size` is the number of nodes that replicate a call;
/// with zero nodes everything is free. `service_fee` is added to every batch of
/// outgoing requests.
#[derive(Clone, Copy, Debug, PartialEq, Eq, Structural)]
pub struct Calculator {
    pub subnet_size: u64,
    pub service_fee: u64,
}

/// `n`, or `limit` where `n` exceeds it.
pub open spec fn at_most(n: nat, limit: nat) -> nat {
    if n > limit {
        limit
    } else {
        n
    }
}

/// The bytes counted for a list of headers: for each, its name, its value and three more.
pub open spec fn headers_bytes(headers: Seq<HttpHeaderView>) -> nat
    decreases headers.len(),
{
    if headers.len() == 0 {
        0
    } else {
        headers_bytes(headers.drop_last()) + encode_utf8(headers.last().name).len() + encode_utf8(
            headers.last().value,
        ).len() + HEADER_OVERHEAD_BYTES as nat
    }
}

/// The bytes counted for a request: its URL, its body and its headers.
pub open spec fn request_bytes(req: HttpRequestView) -> nat {
    encode_utf8(req.url).len() + (match req.body {
        Some(b) => b.len(),
        None => 0,
    }) + headers_bytes(req.headers)
}

/// The bytes counted for a response: four, its body and its headers.
pub open spec fn response_bytes(res: HttpResponseView) -> nat {
    RESPONSE_OVERHEAD_BYTES as nat + res.body.len() + headers_bytes(res.headers)
}

/// The bytes counted for `headers`, or the largest `usize` where they exceed it.
fn count_headers_bytes(headers: &Vec<HttpHeader>) -> (n: usize)
    ensures
        n == at_most(headers_bytes(header_views(headers@)), usize::MAX as nat),
{
    let mut total: usize = 0;
    let mut i: usize = 0;
    while i < headers.len()
        invariant
            i <= headers.len(),
            total == at_most(
                headers_bytes(header_views(headers@.take(i as int))),
                usize::MAX as nat,
            ),
        decreases headers.len() - i,
    {
        proof {
            let all = header_views(headers@.take(i + 1));
            assert(all.drop_last() =~= header_views(headers@.take(i as int)));
            assert(all.last() == headers@[i as int]@);
        }
        let h = &headers[i];
        total = total.saturating_add(h.name.as_str().as_bytes().len());
        total = total.saturating_add(h.value.as_str().as_bytes().len());
        total = total.saturating_add(HEADER_OVERHEAD_BYTES);
        i += 1;
    }
    assert(headers@.take(headers.len() as int) =~= headers@);
    total
}

/// `rate * count`; the product of two 64-bit integers fits in 128 bits.
fn scaled(rate: u64, count: u64) -> (r: u128)
    ensures
        r == rate as nat * count as nat,
{
    let a: u128 = rate as u128;
    let b: u128 = count as u128;
    assert(a * b <= 0xffff_ffff_ffff_ffff * 0xffff_ffff_ffff_ffff) by (nonlinear_arith)
        requires
            a <= 0xffff_ffff_ffff_ffff,
            b <= 0xffff_ffff_ffff_ffff,
    ;
    a * b
}

impl Calculator {
    /// What [`Calculator::count_request_bytes`] counts.
    pub open spec fn spec_request_bytes(self, req: HttpRequestView) -> nat {
        if self.subnet_size == 0 {
            0
        } else {
            request_bytes(req)
        }
    }

    /// What [`Calculator::count_response_bytes`] counts.
    pub open spec fn spec_response_bytes(self, res: HttpResponseView) -> nat {
        if self.subnet_size == 0 {
            0
        } else {
            response_bytes(res)
        }
    }

    /// The price of an ingress message of `ingress_bytes` bytes.
    pub open spec fn spec_ingress_cost(self, ingress_bytes: nat) -> nat {
        if self.subnet_size == 0 {
            0
        } else {
            (INGRESS_MESSAGE_RECEIVED_COST as nat + INGRESS_MESSAGE_BYTE_RECEIVED_COST as nat
                * ingress_bytes) * self.subnet_size as nat
        }
    }

    /// What one node charges for an outgoing request of `request_bytes` bytes.
    pub open spec fn spec_request_cost_per_node(self, request_bytes: nat) -> nat {
        HTTP_OUTCALL_REQUEST_BASE_COST as nat + HTTP_OUTCALL_REQUEST_PER_NODE_COST as nat
            * self.subnet_size as nat + HTTP_OUTCALL_REQUEST_COST_PER_BYTE as nat * (
        HTTP_OUTCALL_REQUEST_OVERHEAD_BYTES as nat + request_bytes) + CANISTER_OVERHEAD as nat
    }

    /// The price of sending a request of `request_bytes` bytes `duplicates` times.
    pub open spec fn spec_http_outcall_request_cost(self, request_bytes: nat, duplicates: nat) -> nat {
        if self.subnet_size == 0 {
            0
        } else {
            self.service_fee as nat + self.spec_request_cost_per_node(request_bytes) * (
            self.subnet_size as nat * duplicates)
        }
    }

    /// The price of receiving a response of `response_bytes` bytes `duplicates` times.
    pub open spec fn spec_http_outcall_response_cost(
        self,
        response_bytes: nat,
        duplicates: nat,
    ) -> nat {
        if self.subnet_size == 0 {
            0
        } else {
            (HTTP_OUTCALL_RESPONSE_COST_PER_BYTE as nat * response_bytes) * (self.subnet_size as nat
                * duplicates)
        }
    }

    /// The bytes that a request is charged for; zero where nothing is charged.
    pub fn count_request_bytes(&self, req: &HttpRequest) -> (n: usize)
        ensures
            n == at_most(self.spec_request_bytes(req@), usize::MAX as nat),
    {
        if self.subnet_size == 0 {
            return 0;
        }
        let body: usize = match &req.body {
            Some(b) => b.len(),
            None => 0,
        };
        let total = req.url.as_str().as_bytes().len().saturating_add(body);
        total.saturating_add(count_headers_bytes(&req.headers))
    }

    /// The bytes that a response is charged for; zero where nothing is charged.
    pub fn count_response_bytes(&self, res: &HttpResponse) -> (n: usize)
        ensures
            n == at_most(self.spec_response_bytes(res@), usize::MAX as nat),
    {
        if self.subnet_size == 0 {
            return 0;
        }
        let total = RESPONSE_OVERHEAD_BYTES.saturating_add(res.body.len());
        total.saturating_add(count_headers_bytes(&res.headers))
    }

    /// The price of an ingress message of `ingress_bytes` bytes.
    pub fn ingress_cost(&self, ingress_bytes: usize) -> (cost: u128)
        ensures
            cost == at_most(self.spec_ingress_cost(ingress_bytes as nat), u128::MAX as nat),
    {
        if self.subnet_size == 0 {
            return 0;
        }
        let per_node: u128 = INGRESS_MESSAGE_RECEIVED_COST as u128 + scaled(
            INGRESS_MESSAGE_BYTE_RECEIVED_COST,
            ingress_bytes as u64,
        );
        match per_node.checked_mul(self.subnet_size as u128) {
            Some(cost) => cost,
            None => u128::MAX,
        }
    }

    /// The number of node calls for `duplicates` copies of a call.
    fn node_calls(&self, duplicates: usize) -> (n: u128)
        ensures
            n == self.subnet_size as nat * duplicates as nat,
    {
        scaled(self.subnet_size, duplicates as u64)
    }

    /// The price of sending a request of `request_bytes` bytes `duplicates` times.
    pub fn http_outcall_request_cost(&self, request_bytes: usize, duplicates: usize) -> (cost: u128)
        ensures
            cost == at_most(
                self.spec_http_outcall_request_cost(request_bytes as nat, duplicates as nat),
                u128::MAX as nat,
            ),
    {
        if self.subnet_size == 0 {
            return 0;
        }
        let per_subnet_node: u128 = scaled(HTTP_OUTCALL_REQUEST_PER_NODE_COST, self.subnet_size);
        let per_byte: u128 = scaled(
            HTTP_OUTCALL_REQUEST_COST_PER_BYTE,
            HTTP_OUTCALL_REQUEST_OVERHEAD_BYTES,
        ) + scaled(HTTP_OUTCALL_REQUEST_COST_PER_BYTE, request_bytes as u64);
        let per_node: u128 = HTTP_OUTCALL_REQUEST_BASE_COST as u128 + per_subnet_node + per_byte
            + CANISTER_OVERHEAD as u128;
        assert(per_node == self.spec_request_cost_per_node(request_bytes as nat));
        let nodes = self.node_calls(duplicates);
        match per_node.checked_mul(nodes) {
            Some(all_nodes) => (self.service_fee as u128).saturating_add(all_nodes),
            None => u128::MAX,
        }
    }

    /// The price of receiving a response of `response_bytes` bytes `duplicates` times.
    pub fn http_outcall_response_cost(&self, response_bytes: usize, duplicates: usize) -> (cost:
        u128)
        ensures
            cost == at_most(
                self.spec_http_outcall_response_cost(response_bytes as nat, duplicates as nat),
                u128::MAX as nat,
            ),
    {
        if self.subnet_size == 0 {
            return 0;
        }
        let per_node: u128 = scaled(HTTP_OUTCALL_RESPONSE_COST_PER_BYTE, response_bytes as u64);
        let nodes = self.node_calls(duplicates);
        match per_node.checked_mul(nodes) {
            Some(cost) => cost,
            None => u128::MAX,
        }
    }
}

} // verus!
