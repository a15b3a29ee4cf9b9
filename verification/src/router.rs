//! The router: a URI-to-page table and the rule that picks a
//! response for a request.
//!
//! Building the table from a directory tree is input/output work and
//! lives outside the verified core; the router itself takes the
//! finished list of pages.

use vstd::prelude::*;

use crate::assoc::{assoc_insert, assoc_lookup, assoc_map, keys_unique, pairs_view};
use crate::content::Contentable;
use crate::request::Request;
use crate::response::{Response, StatusCode};

verus! {

/// Maps request URIs to page contents.
pub struct Router {
    paths: Vec<(String, String)>,
}

impl Router {
    /// The stored pairs, in storage order.
    pub closed spec fn paths_seq(&self) -> Seq<(Seq<char>, Seq<char>)> {
        pairs_view(self.paths@)
    }

    /// The map from URIs to page contents.
    pub open spec fn paths_view(&self) -> Map<Seq<char>, Seq<char>> {
        assoc_map(self.paths_seq())
    }

    /// The stored URIs are unique.
    pub closed spec fn wf(&self) -> bool {
        keys_unique(pairs_view(self.paths@))
    }

    /// A router serving the given pages; on a repeated URI the later
    /// page wins.
    pub fn new(pages: Vec<(String, String)>) -> (r: Router)
        ensures
            r.wf(),
            r.paths_view() == assoc_map(pairs_view(pages@)),
    {
        let mut paths: Vec<(String, String)> = Vec::new();
        let n = pages.len();
        let mut i: usize = 0;
        proof {
            assert(pairs_view(paths@) =~= Seq::<(Seq<char>, Seq<char>)>::empty());
            assert(pairs_view(pages@).subrange(0, 0) =~= Seq::<(Seq<char>, Seq<char>)>::empty());
        }
        while i < n
            invariant
                n == pages@.len(),
                i <= n,
                keys_unique(pairs_view(paths@)),
                assoc_map(pairs_view(paths@)) == assoc_map(
                    pairs_view(pages@).subrange(0, i as int),
                ),
            decreases n - i,
        {
            let ghost pre = pairs_view(pages@).subrange(0, i as int);
            let ghost pre2 = pairs_view(pages@).subrange(0, i as int + 1);
            let uri = pages[i].0.clone();
            let contents = pages[i].1.clone();
            proof {
                assert(pre2.drop_last() =~= pre);
                assert(pre2.last() == pairs_view(pages@)[i as int]);
                assert(pairs_view(pages@)[i as int] == (pages@[i as int].0@,
                pages@[i as int].1@));
            }
            assoc_insert(&mut paths, uri, contents);
            i = i + 1;
        }
        proof {
            assert(pairs_view(pages@).subrange(0, n as int) =~= pairs_view(pages@));
        }
        Router { paths }
    }

    /// The response for a request: the page stored under the
    /// request's URI with status 200, or an empty 404 when no page
    /// is stored there.
    pub fn handle_request(&self, request: Request) -> (res: Response)
        requires
            self.wf(),
        ensures
            res.content_wf(),
            res.headers_seq() == Seq::<(Seq<char>, Seq<char>)>::empty(),
            self.paths_view().contains_key(request.uri_view()) ==> res.status_view()
                == StatusCode::OK && res.body_view() == self.paths_view()[request.uri_view()],
            !self.paths_view().contains_key(request.uri_view()) ==> res.status_view()
                == StatusCode::NotFound && res.body_view() == Seq::<char>::empty(),
    {
        match assoc_lookup(&self.paths, request.uri()) {
            Some(contents) => Response::new(StatusCode::OK, String::from_str(contents)),
            None => Response::new(StatusCode::NotFound, String::new()),
        }
    }
}

} // verus!
