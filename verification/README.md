# finality-grandpa

Voting on a consensus history in which every view holds either a real block or
the decision to skip the view, written in Verus.

- A target is a block or a timeout. Both advance the view by one; only a block
  advances the real block number. A timeout inherits the last real block of its
  parent.
- Votes name the identity and the view of a target. The base of a round, its
  prevote-ghost, its estimate and what it finalizes are all targets.
- A block and a timeout after the same parent compete. Once one of them is final,
  the other can no longer become final.
- Finalizing a timeout also finalizes the real blocks before it.

`src/` is the verified library. A round decides what to do next; its owner keeps
the timers, queries, streams and storage, and tells the round what came of them.
`app/` is such an owner: it polls a round, encodes targets and runs a host in
memory. `tests/` run the library on concrete histories.

The views of the executable types (`Tree`, `RoundView`, `VotingRoundView`,
`HostView`) state what each function does. The modules named `*_laws` state what
follows for histories, rounds and commits as a whole: that finality only moves
forward and settles its view, that a round's commits are valid, and that a voter
casts one vote per phase. While no more than the tolerated weight (less than a
third) votes twice, two supermajorities agree and a round never takes back what it
has finalized.
