//! Toggling comments by way of a server.
use crate::lsp::{
    point_at, point_to_lsp, LspCommandError, PointUtf16, Position, Span, TextDocumentIdentifier,
};
use vstd::prelude::*;

verus! {

/// The request to toggle comments.
pub struct LspExtToggleComments {}

impl LspExtToggleComments {
    /// What servers call it.
    pub const METHOD: &'static str = "herb/toggleLineComment";
}

/// The stretches of a document whose comments are to be toggled.
#[derive(Debug)]
pub struct ToggleCommentsParams {
    pub text_document: TextDocumentIdentifier,
    pub ranges: Vec<Span<Position>>,
}

/// Toggles the comments of selections. `A` is an anchor.
#[derive(Debug)]
pub struct ToggleCommentsCommand<A> {
    pub selections: Vec<Span<A>>,
}

/// A request of a peer to toggle comments, of a version of a buffer.
#[derive(Debug)]
pub struct ToggleCommentsRequest<A, V> {
    pub project_id: u64,
    pub buffer_id: u64,
    pub starts: Vec<A>,
    pub ends: Vec<A>,
    pub version: V,
}

/// What is to be done with the answer of a server.
#[derive(Debug)]
pub enum ToggleCommentsStep<E> {
    /// Nothing was changed.
    Done,
    /// The edits are to be made in the buffer, as a change that can be undone.
    Apply { edits: Vec<E>, push_to_history: bool },
}

/// The range is what servers call the stretch; `to_point` tells which place an anchor stands for.
pub open spec fn is_range_of<A, F: Fn(&A) -> PointUtf16>(
    range: Span<Position>,
    selection: Span<A>,
    to_point: F,
) -> bool {
    &&& call_ensures(to_point, (&selection.start,), point_at(range.start))
    &&& call_ensures(to_point, (&selection.end,), point_at(range.end))
}

/// What a peer said of a pair of ends cannot be understood.
pub open spec fn end_error<A>(start: Option<A>, end: Option<A>) -> Option<LspCommandError> {
    match (start, end) {
        (None, _) => Some(LspCommandError::InvalidStart),
        (_, None) => Some(LspCommandError::InvalidEnd),
        _ => None,
    }
}

/// How many pairs there are in two lists.
pub open spec fn pairs(a: nat, b: nat) -> nat {
    if a < b {
        a
    } else {
        b
    }
}

/// What is understood of a list.
pub open spec fn understood<A>(list: Seq<A>) -> Seq<Option<A>> {
    list.map_values(|a: A| Some(a))
}

/// The request to a peer is to toggle the comments of the selections.
pub open spec fn is_request_for<A, V>(
    request: ToggleCommentsRequest<A, V>,
    selections: Seq<Span<A>>,
) -> bool {
    &&& request.starts@ == selections.map_values(|s: Span<A>| s.start)
    &&& request.ends@ == selections.map_values(|s: Span<A>| s.end)
}

/// The selections are what is understood of the request of a peer.
pub open spec fn is_understood_as<A>(
    starts: Seq<Option<A>>,
    ends: Seq<Option<A>>,
    selections: Seq<Span<A>>,
) -> bool {
    &&& selections.len() == pairs(starts.len(), ends.len())
    &&& forall|i: int|
        0 <= i < selections.len() ==> starts[i] == Some((#[trigger] selections[i]).start)
            && ends[i] == Some(selections[i].end)
}

impl<A: Copy> ToggleCommentsCommand<A> {
    /// What the command is called.
    pub fn display_name(&self) -> (r: &'static str)
        ensures
            r@ == "Toggle comments"@,
    {
        "Toggle comments"
    }

    /// Every server is asked.
    pub fn check_capabilities(&self) -> (r: bool)
        ensures
            r,
    {
        true
    }

    /// What a server is asked about the document, where the path is that of one; `to_point` tells
    /// which place an anchor stands for.
    pub fn to_lsp<F: Fn(&A) -> PointUtf16>(
        &self,
        document: Result<TextDocumentIdentifier, LspCommandError>,
        to_point: F,
    ) -> (r: Result<ToggleCommentsParams, LspCommandError>)
        requires
            forall|anchor: &A| call_requires(to_point, (anchor,)),
        ensures
            match document {
                Ok(text_document) => {
                    &&& r matches Ok(params)
                    &&& params.text_document == text_document
                    &&& params.ranges@.len() == self.selections@.len()
                    &&& forall|i: int|
                        0 <= i < self.selections@.len() ==> is_range_of(
                            #[trigger] params.ranges@[i],
                            self.selections@[i],
                            to_point,
                        )
                    &&& forall|i: int|
                        0 <= i < self.selections@.len() ==> {
                            let range = #[trigger] params.ranges@[i];
                            let start = PointUtf16 {
                                row: range.start.line,
                                column: range.start.character,
                            };
                            let end = PointUtf16 {
                                row: range.end.line,
                                column: range.end.character,
                            };
                            &&& call_ensures(to_point, (&self.selections@[i].start,), start)
                            &&& call_ensures(to_point, (&self.selections@[i].end,), end)
                        }
                },
                Err(error) => r == Err::<ToggleCommentsParams, _>(error),
            },
    {
        let mut ranges: Vec<Span<Position>> = Vec::new();
        for i in 0..self.selections.len()
            invariant
                forall|anchor: &A| call_requires(to_point, (anchor,)),
                ranges@.len() == i,
                forall|j: int|
                    0 <= j < i ==> is_range_of(
                        #[trigger] ranges@[j],
                        self.selections@[j],
                        to_point,
                    ),
        {
            let start = point_to_lsp(to_point(&self.selections[i].start));
            let end = point_to_lsp(to_point(&self.selections[i].end));
            ranges.push(Span { start, end });
        }
        match document {
            Ok(text_document) => Ok(ToggleCommentsParams { text_document, ranges }),
            Err(error) => Err(error),
        }
    }

    /// What is to be done with the answer of a server: without edits, nothing.
    pub fn response_from_lsp<E>(self, message: Option<Vec<E>>) -> (r: ToggleCommentsStep<E>)
        ensures
            match message {
                Some(edits) => r == (ToggleCommentsStep::Apply { edits, push_to_history: true }),
                None => r == ToggleCommentsStep::<E>::Done,
            },
    {
        match message {
            Some(edits) => ToggleCommentsStep::Apply { edits, push_to_history: true },
            None => ToggleCommentsStep::Done,
        }
    }

    /// What a peer is asked.
    pub fn to_proto<V>(&self, project_id: u64, buffer_id: u64, version: V) -> (r:
        ToggleCommentsRequest<A, V>)
        ensures
            r.project_id == project_id,
            r.buffer_id == buffer_id,
            r.version == version,
            is_request_for(r, self.selections@),
            r.starts@.len() == self.selections@.len(),
            r.ends@.len() == self.selections@.len(),
            forall|i: int|
                0 <= i < self.selections@.len() ==> #[trigger] r.starts@[i]
                    == self.selections@[i].start,
            forall|i: int|
                0 <= i < self.selections@.len() ==> #[trigger] r.ends@[i]
                    == self.selections@[i].end,
    {
        let mut starts: Vec<A> = Vec::new();
        let mut ends: Vec<A> = Vec::new();
        for i in 0..self.selections.len()
            invariant
                starts@.len() == i,
                ends@.len() == i,
                forall|j: int| 0 <= j < i ==> #[trigger] starts@[j] == self.selections@[j].start,
                forall|j: int| 0 <= j < i ==> #[trigger] ends@[j] == self.selections@[j].end,
        {
            starts.push(self.selections[i].start);
            ends.push(self.selections[i].end);
        }
        assert(starts@ =~= self.selections@.map_values(|s: Span<A>| s.start));
        assert(ends@ =~= self.selections@.map_values(|s: Span<A>| s.end));
        ToggleCommentsRequest { project_id, buffer_id, starts, ends, version }
    }

    /// What a peer asks: each start with its end, as far as there are both, or the first reason
    /// why one cannot be understood.
    pub fn from_proto(starts: &Vec<Option<A>>, ends: &Vec<Option<A>>) -> (r: Result<
        Self,
        LspCommandError,
    >)
        ensures
            match r {
                Ok(command) => is_understood_as(starts@, ends@, command.selections@),
                Err(error) => exists|i: int|
                    {
                        &&& 0 <= i < pairs(starts@.len(), ends@.len())
                        &&& end_error(#[trigger] starts@[i], ends@[i]) == Some(error)
                        &&& forall|j: int|
                            0 <= j < i ==> end_error(#[trigger] starts@[j], ends@[j]) is None
                    },
            },
            r is Ok <==> forall|i: int|
                0 <= i < pairs(starts@.len(), ends@.len()) ==> end_error(
                    #[trigger] starts@[i],
                    ends@[i],
                ) is None,
            match r {
                Ok(command) => {
                    &&& command.selections@.len() <= starts@.len()
                    &&& command.selections@.len() <= ends@.len()
                    &&& command.selections@.len() == starts@.len() || command.selections@.len()
                        == ends@.len()
                    &&& forall|i: int|
                        0 <= i < command.selections@.len() ==> starts@[i] == Some(
                            (#[trigger] command.selections@[i]).start,
                        ) && ends@[i] == Some(command.selections@[i].end)
                },
                Err(error) => exists|i: int|
                    {
                        &&& 0 <= i < starts@.len()
                        &&& i < ends@.len()
                        &&& error == if (#[trigger] starts@[i]) is None {
                            LspCommandError::InvalidStart
                        } else {
                            LspCommandError::InvalidEnd
                        }
                        &&& starts@[i] is None || ends@[i] is None
                        &&& forall|j: int|
                            0 <= j < i ==> (#[trigger] starts@[j]) is Some && ends@[j] is Some
                    },
            },
    {
        let mut selections: Vec<Span<A>> = Vec::new();
        let mut i: usize = 0;
        while i < starts.len() && i < ends.len()
            invariant
                i <= starts@.len(),
                i <= ends@.len(),
                selections@.len() == i,
                forall|j: int|
                    0 <= j < i ==> starts@[j] == Some((#[trigger] selections@[j]).start) && ends@[j]
                        == Some(selections@[j].end),
                forall|j: int| 0 <= j < i ==> end_error(#[trigger] starts@[j], ends@[j]) is None,
            decreases starts@.len() - i,
        {
            let start = match starts[i] {
                Some(start) => start,
                None => {
                    assert(end_error(starts@[i as int], ends@[i as int]) is Some);
                    return Err(LspCommandError::InvalidStart);
                },
            };
            let end = match ends[i] {
                Some(end) => end,
                None => {
                    assert(end_error(starts@[i as int], ends@[i as int]) is Some);
                    return Err(LspCommandError::InvalidEnd);
                },
            };
            selections.push(Span { start, end });
            i = i + 1;
        }
        Ok(ToggleCommentsCommand { selections })
    }

    /// What comes of the answer of a peer: the change, or why it cannot be understood; without a
    /// change, none.
    pub fn response_from_proto<T>(self, transaction: Option<Result<T, LspCommandError>>) -> (r:
        Result<Option<T>, LspCommandError>)
        ensures
            match transaction {
                Some(Ok(transaction)) => r == Ok::<_, LspCommandError>(Some(transaction)),
                Some(Err(error)) => r == Err::<Option<T>, _>(error),
                None => r == Ok::<Option<T>, LspCommandError>(None),
            },
    {
        match transaction {
            Some(Ok(transaction)) => Ok(Some(transaction)),
            Some(Err(error)) => Err(error),
            None => Ok(None),
        }
    }
}

/// A peer that understands every anchor understands the selections as they are.
pub proof fn selections_survive_the_way_to_a_peer<A, V>(
    request: ToggleCommentsRequest<A, V>,
    sent: Seq<Span<A>>,
    received: Seq<Span<A>>,
)
    requires
        is_request_for(request, sent),
    ensures
        forall|i: int|
            0 <= i < pairs(request.starts@.len(), request.ends@.len()) ==> end_error(
                #[trigger] understood(request.starts@)[i],
                understood(request.ends@)[i],
            ) is None,
        is_understood_as(understood(request.starts@), understood(request.ends@), received)
            ==> received == sent,
{
    if is_understood_as(understood(request.starts@), understood(request.ends@), received) {
        assert forall|i: int| 0 <= i < received.len() implies #[trigger] received[i] == sent[i] by {
            assert(understood(request.starts@)[i] == Some(received[i].start));
        }
        assert(received =~= sent);
    }
}

} // verus!
