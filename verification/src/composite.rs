//! Composite codecs: optional values and owned indirection.
//!
//! An optional value travels as a list node of arity zero (absent) or one
//! (present, the child being the value's encoding); any other arity is
//! malformed.  A boxed value delegates entirely to the wrapped value's
//! codec: the indirection exists only so that recursive value shapes can
//! be expressed, and has no wire-visible effect.

use vstd::prelude::*;

use crate::codec::{Decodable, Encodable};
use crate::error::DecoderError;
use crate::node::{lemma_nodes_view, Node, NodeView};

verus! {

impl<T: Encodable> Encodable for Option<T> {
    open spec fn valid(v: Option<T::V>) -> bool {
        match v {
            None => true,
            Some(x) => T::valid(x),
        }
    }

    open spec fn wire(v: Option<T::V>) -> NodeView {
        match v {
            None => NodeView::List(Seq::empty()),
            Some(x) => NodeView::List(seq![T::wire(x)]),
        }
    }

    fn encode(&self) -> (n: Node) {
        match self {
            None => {
                let children: Vec<Node> = Vec::new();
                proof {
                    lemma_nodes_view(children@);
                    assert(crate::node::nodes_view(children@) =~= Seq::<NodeView>::empty());
                }
                Node::List(children)
            },
            Some(x) => {
                let child = x.encode();
                let mut children: Vec<Node> = Vec::new();
                children.push(child);
                proof {
                    lemma_nodes_view(children@);
                    assert(crate::node::nodes_view(children@) =~= seq![
                        T::wire(x.deep_view()),
                    ]);
                }
                Node::List(children)
            },
        }
    }
}

impl<T: Decodable> Decodable for Option<T> {
    open spec fn parse(n: NodeView) -> Result<Option<T::V>, DecoderError> {
        match n {
            NodeView::List(children) => if children.len() == 0 {
                Ok(None)
            } else if children.len() == 1 {
                match T::parse(children[0]) {
                    Ok(x) => Ok(Some(x)),
                    Err(e) => Err(e),
                }
            } else {
                Err(DecoderError::RlpIncorrectListLen)
            },
            NodeView::Value(_) => Err(DecoderError::RlpExpectedToBeData),
        }
    }

    fn decode(n: &Node) -> (r: Result<Option<T>, DecoderError>) {
        match n {
            Node::List(children) => {
                proof {
                    lemma_nodes_view(children@);
                }
                let len = children.len();
                if len == 0 {
                    Ok(None)
                } else if len == 1 {
                    match T::decode(&children[0]) {
                        Ok(x) => Ok(Some(x)),
                        Err(e) => Err(e),
                    }
                } else {
                    Err(DecoderError::RlpIncorrectListLen)
                }
            },
            Node::Value(_) => Err(DecoderError::RlpExpectedToBeData),
        }
    }

    proof fn lemma_round_trip(v: Option<T::V>) {
        match v {
            None => {},
            Some(x) => {
                T::lemma_round_trip(x);
                assert(seq![T::wire(x)].len() == 1);
                assert(seq![T::wire(x)][0] == T::wire(x));
            },
        }
    }
}

impl<T: Encodable> Encodable for Box<T> {
    open spec fn valid(v: T::V) -> bool {
        T::valid(v)
    }

    open spec fn wire(v: T::V) -> NodeView {
        T::wire(v)
    }

    fn encode(&self) -> (n: Node) {
        (**self).encode()
    }
}

impl<T: Decodable> Decodable for Box<T> {
    open spec fn parse(n: NodeView) -> Result<T::V, DecoderError> {
        T::parse(n)
    }

    fn decode(n: &Node) -> (r: Result<Box<T>, DecoderError>) {
        match T::decode(n) {
            Ok(x) => Ok(Box::new(x)),
            Err(e) => Err(e),
        }
    }

    proof fn lemma_round_trip(v: T::V) {
        T::lemma_round_trip(v);
    }
}

} // verus!
