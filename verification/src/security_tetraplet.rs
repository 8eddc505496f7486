use vstd::prelude::*;

verus! {

/// Describes where a value came from: the peer, service and function that produced it,
/// and the lens that selected it from the produced value.
#[derive(Clone, Debug, PartialEq, Eq)]
pub struct SecurityTetraplet {
    pub peer_pk: String,
    pub service_id: String,
    pub function_name: String,
    pub lens: String,
}

/// A tetraplet as mathematics sees it.
pub struct TetrapletView {
    pub peer_pk: Seq<char>,
    pub service_id: Seq<char>,
    pub function_name: Seq<char>,
    pub lens: Seq<char>,
}

impl View for SecurityTetraplet {
    type V = TetrapletView;

    open spec fn view(&self) -> TetrapletView {
        TetrapletView {
            peer_pk: self.peer_pk@,
            service_id: self.service_id@,
            function_name: self.function_name@,
            lens: self.lens@,
        }
    }
}

impl SecurityTetraplet {
    pub fn new(peer_pk: String, service_id: String, function_name: String, lens: String) -> (tetraplet: Self)
        ensures
            tetraplet@ == (TetrapletView {
                peer_pk: peer_pk@,
                service_id: service_id@,
                function_name: function_name@,
                lens: lens@,
            }),
    {
        Self { peer_pk, service_id, function_name, lens }
    }

    /// The tetraplet of a literal given by the peer `init_peer_id`: no service, no
    /// function, no lens.
    pub fn literal_tetraplet(init_peer_id: String) -> (tetraplet: Self)
        ensures
            tetraplet@ == (TetrapletView {
                peer_pk: init_peer_id@,
                service_id: Seq::empty(),
                function_name: Seq::empty(),
                lens: Seq::empty(),
            }),
    {
        Self::new(init_peer_id, String::new(), String::new(), String::new())
    }

    /// Appends `lens` to the lens of the tetraplet.
    pub fn add_lens(&mut self, lens: &str)
        ensures
            final(self)@ == (TetrapletView { lens: old(self)@.lens + lens@, ..old(self)@ }),
    {
        self.lens.append(lens);
    }

    /// A copy of the tetraplet.
    pub fn duplicate(&self) -> (copy: Self)
        ensures
            copy@ == self@,
    {
        Self {
            peer_pk: self.peer_pk.clone(),
            service_id: self.service_id.clone(),
            function_name: self.function_name.clone(),
            lens: self.lens.clone(),
        }
    }
}

impl Default for SecurityTetraplet {
    fn default() -> (tetraplet: Self)
        ensures
            tetraplet@ == (TetrapletView {
                peer_pk: Seq::empty(),
                service_id: Seq::empty(),
                function_name: Seq::empty(),
                lens: Seq::empty(),
            }),
    {
        Self::new(String::new(), String::new(), String::new(), String::new())
    }
}

/// The content identifier of a stored value.
#[derive(Clone, Debug, PartialEq, Eq)]
pub struct CID(pub String);

/// Where a value came from in the data: a literal, the result of a service call, or a
/// canon result, the latter two with their content identifiers.
#[derive(Clone, Debug, PartialEq, Eq)]
pub enum Provenance {
    Literal,
    ServiceResult { cid: CID },
    Canon { cid: CID },
}

/// A provenance as mathematics sees it.
pub enum ProvenanceView {
    Literal,
    ServiceResult(Seq<char>),
    Canon(Seq<char>),
}

impl View for Provenance {
    type V = ProvenanceView;

    open spec fn view(&self) -> ProvenanceView {
        match self {
            Provenance::Literal => ProvenanceView::Literal,
            Provenance::ServiceResult { cid } => ProvenanceView::ServiceResult(cid.0@),
            Provenance::Canon { cid } => ProvenanceView::Canon(cid.0@),
        }
    }
}

impl Provenance {
    pub fn literal() -> (provenance: Self)
        ensures
            provenance@ == ProvenanceView::Literal,
    {
        Provenance::Literal
    }

    /// A copy of the provenance.
    pub fn duplicate(&self) -> (copy: Self)
        ensures
            copy@ == self@,
    {
        match self {
            Provenance::Literal => Provenance::Literal,
            Provenance::ServiceResult { cid } => Provenance::ServiceResult { cid: CID(cid.0.clone()) },
            Provenance::Canon { cid } => Provenance::Canon { cid: CID(cid.0.clone()) },
        }
    }
}

/// The position of a state in the execution trace.
#[derive(Clone, Copy, Debug, PartialEq, Eq, Structural)]
pub struct TracePos(pub u32);

} // verus!
