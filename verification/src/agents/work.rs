//! The tree that an agent is given to work in, and what it takes to get its output back out.

use crate::artifact;
use crate::artifact::CDir;
use crate::artifact::Corpus;
use crate::artifact::Entry;
use crate::artifact::Oracle;
use crate::artifact::Phase;
use crate::artifact::Refusal;
use crate::artifact::Scrubbed;
use crate::artifact::Sealed;
use crate::artifact::Sealing;
use crate::artifact::Translate;
use crate::artifact::TreeDigest;
use crate::artifact::Verify;
use crate::bytes;
use crate::domain::health::Completed;
use crate::paths;
use crate::text;
use std::marker::PhantomData;
use vstd::prelude::*;
use vstd::string::*;

verus! {

/// Why there is no tree to work in.
#[derive(Debug)]
pub enum Unworkable {
    /// There is nothing to start from: what was looked for, and where.
    NoInput(String),
    /// The reference in the tree cannot be graded against.
    Refused(Refusal),
}

/// The working copy of one phase. What it was made from and the reference as it was handed over
/// travel with it, so that the key names the tree that the agent has.
#[derive(Debug)]
pub struct IsolatedWorkDir<P: Phase> {
    root: String,
    input: TreeDigest,
    seed: String,
    before: Oracle,
    phase: PhantomData<P>,
}

impl<P: Phase> IsolatedWorkDir<P> {
    /// Where the working copy is.
    pub closed spec fn place(&self) -> Seq<char> {
        self.root@
    }

    /// The digest of what it was made from.
    pub closed spec fn made_from(&self) -> Seq<char> {
        self.input@
    }

    /// Where that is.
    pub closed spec fn origin(&self) -> Seq<char> {
        self.seed@
    }

    /// The reference as it was handed over.
    pub closed spec fn handed(&self) -> Seq<artifact::HashedFile> {
        self.before@
    }
}

impl IsolatedWorkDir<Translate> {
    /// A working copy for a translation, made from the C corpus at `place`. `root` is where it was
    /// made, and `handed` the reference in it.
    pub fn from_corpus(place: &str, corpus: CDir, root: &str, handed: &CDir) -> (r: Result<
        IsolatedWorkDir<Translate>,
        Unworkable,
    >)
        ensures
            corpus.entries is None ==> (r matches Err(Unworkable::NoInput(e)) && e@
                == "no C corpus at "@ + place@
                + ": an absent input would otherwise be keyed as a real one"@),
            corpus.entries is Some ==> match artifact::oracle_snapshot(*handed) {
                Err(e) => r matches Err(Unworkable::Refused(x)) && x@ == e,
                Ok(files) => r matches Ok(w) && w.place() == root@ && w.origin() == place@
                    && w.made_from() == artifact::oracle_digest(corpus.entries) && w.handed()
                    == files,
            },
    {
        let corpus = match Corpus::adopt(place, corpus) {
            Ok(c) => c,
            Err(e) => {
                return Err(Unworkable::NoInput(e));
            },
        };
        let input = corpus.digest();
        match handed.snapshot() {
            Err(e) => Err(Unworkable::Refused(e)),
            Ok(before) => Ok(
                IsolatedWorkDir {
                    root: text::copy(root),
                    input,
                    seed: text::copy(place),
                    before,
                    phase: PhantomData,
                },
            ),
        }
    }
}

impl IsolatedWorkDir<Verify> {
    /// A working copy for a verification, made from the translation at `place`.
    pub fn new(place: &str, translated: Option<&Vec<Entry>>, root: &str, handed: &CDir) -> (r: Result<
        IsolatedWorkDir<Verify>,
        Unworkable,
    >)
        ensures
            match translated {
                None => r matches Err(Unworkable::NoInput(e)) && e@
                    == "adopting translated/ as a sealed artifact: no translated phase dir at "@
                    + place@,
                Some(es) => match artifact::oracle_snapshot(*handed) {
                    Err(e) => r matches Err(Unworkable::Refused(x)) && x@ == e,
                    Ok(files) => r matches Ok(w) && w.place() == root@ && w.origin() == place@
                        && w.made_from() == artifact::tree_digest(es@, artifact::Admit::Hashed)
                        && w.handed() == files,
                },
            },
    {
        proof {
            reveal_strlit("no ");
            reveal_strlit("translated");
            reveal_strlit(" phase dir at ");
            reveal_strlit("no translated phase dir at ");
            reveal_strlit("adopting translated/ as a sealed artifact: ");
            reveal_strlit("adopting translated/ as a sealed artifact: no translated phase dir at ");
            assert("no "@ + "translated"@ + " phase dir at "@ =~= "no translated phase dir at "@);
            assert("adopting translated/ as a sealed artifact: "@ + "no translated phase dir at "@
                =~= "adopting translated/ as a sealed artifact: no translated phase dir at "@);
        }
        let sealed: Sealed<Translate> = match Sealed::adopt(place, translated) {
            Ok(s) => s,
            Err(e) => {
                let why = text::join2(
                    "adopting translated/ as a sealed artifact: ",
                    e.as_str(),
                );
                assert(why@
                    =~= "adopting translated/ as a sealed artifact: no translated phase dir at "@
                    + place@);
                return Err(Unworkable::NoInput(why));
            },
        };
        match handed.snapshot() {
            Err(e) => Err(Unworkable::Refused(e)),
            Ok(before) => Ok(
                IsolatedWorkDir {
                    root: text::copy(root),
                    input: sealed.into_digest(),
                    seed: text::copy(place),
                    before,
                    phase: PhantomData,
                },
            ),
        }
    }
}

impl<P: Phase> IsolatedWorkDir<P> {
    /// The crate in the working copy.
    pub fn translated_rust(&self) -> (r: String)
        ensures
            r@ == paths::joined(self.place(), artifact::TRANSLATED_RUST@),
    {
        paths::join(self.root.as_str(), artifact::TRANSLATED_RUST)
    }

    /// Where the agent is started, and the tree that its policy grants.
    pub fn root(&self) -> (r: &str)
        ensures
            r@ == self.place(),
    {
        self.root.as_str()
    }

    /// Where the working copy was made from.
    pub fn seed(&self) -> (r: &str)
        ensures
            r@ == self.origin(),
    {
        self.seed.as_str()
    }

    /// The digest of what the working copy was made from: the input of the key.
    pub fn input_digest(&self) -> (r: &TreeDigest)
        ensures
            r@ == self.made_from(),
    {
        &self.input
    }

    /// Scrubs what a finished run left in the crate and seals it, against the reference as it was
    /// handed over. `base` is where all working copies are made. The scrubbed crate comes back too: it
    /// says which files held a path of the run.
    pub fn finish(&self, finished: &Completed, krate: &Vec<Entry>, base: &str) -> (r: (
        Scrubbed<P>,
        Result<Sealing<P>, Refusal>,
    ))
        ensures
            r.0.made_from(krate@, self.place(), base@),
            match artifact::judged(self.handed(), r.0.tree()) {
                Err(e) => r.1 matches Err(x) && x@ == e,
                Ok(built) => if built.len() > 0 {
                    r.1 matches Ok(Sealing::Drop(v)) && bytes::byte_views(v@) == built
                } else {
                    r.1 matches Ok(Sealing::Done(s)) && s@ == artifact::sealed_digest(
                        krate@,
                        self.place(),
                        base@,
                    )
                },
            },
    {
        let scrubbed = artifact::scrub(krate, self.root.as_str(), base);
        let sealing = artifact::seal(finished, &self.before, &scrubbed);
        (scrubbed, sealing)
    }
}

} // verus!
