//! System calls by their x86-64 Linux numbers, and which of them a confined
//! process may make.

use vstd::prelude::*;

verus! {

pub const SYS_ACCEPT: i64 = 43;

pub const SYS_ACCEPT4: i64 = 288;

pub const SYS_ACCESS: i64 = 21;

pub const SYS_ACCT: i64 = 163;

pub const SYS_ADJTIMEX: i64 = 159;

pub const SYS_ALARM: i64 = 37;

pub const SYS_ARCH_PRCTL: i64 = 158;

pub const SYS_BIND: i64 = 49;

pub const SYS_BPF: i64 = 321;

pub const SYS_BRK: i64 = 12;

pub const SYS_CAPGET: i64 = 125;

pub const SYS_CAPSET: i64 = 126;

pub const SYS_CHDIR: i64 = 80;

pub const SYS_CHMOD: i64 = 90;

pub const SYS_CHOWN: i64 = 92;

pub const SYS_CLOCK_ADJTIME: i64 = 305;

pub const SYS_CLOCK_GETRES: i64 = 229;

pub const SYS_CLOCK_GETTIME: i64 = 228;

pub const SYS_CLOCK_NANOSLEEP: i64 = 230;

pub const SYS_CLOCK_SETTIME: i64 = 227;

pub const SYS_CLONE: i64 = 56;

pub const SYS_CLONE3: i64 = 435;

pub const SYS_CLOSE: i64 = 3;

pub const SYS_CLOSE_RANGE: i64 = 436;

pub const SYS_CONNECT: i64 = 42;

pub const SYS_COPY_FILE_RANGE: i64 = 326;

pub const SYS_CREAT: i64 = 85;

pub const SYS_DELETE_MODULE: i64 = 176;

pub const SYS_DUP: i64 = 32;

pub const SYS_DUP2: i64 = 33;

pub const SYS_DUP3: i64 = 292;

pub const SYS_EPOLL_CREATE: i64 = 213;

pub const SYS_EPOLL_CREATE1: i64 = 291;

pub const SYS_EPOLL_CTL: i64 = 233;

pub const SYS_EPOLL_PWAIT: i64 = 281;

pub const SYS_EPOLL_WAIT: i64 = 232;

pub const SYS_EVENTFD: i64 = 284;

pub const SYS_EVENTFD2: i64 = 290;

pub const SYS_EXECVE: i64 = 59;

pub const SYS_EXECVEAT: i64 = 322;

pub const SYS_EXIT: i64 = 60;

pub const SYS_EXIT_GROUP: i64 = 231;

pub const SYS_FACCESSAT: i64 = 269;

pub const SYS_FACCESSAT2: i64 = 439;

pub const SYS_FADVISE64: i64 = 221;

pub const SYS_FALLOCATE: i64 = 285;

pub const SYS_FANOTIFY_INIT: i64 = 300;

pub const SYS_FANOTIFY_MARK: i64 = 301;

pub const SYS_FCHDIR: i64 = 81;

pub const SYS_FCHMOD: i64 = 91;

pub const SYS_FCHMODAT: i64 = 268;

pub const SYS_FCHOWN: i64 = 93;

pub const SYS_FCHOWNAT: i64 = 260;

pub const SYS_FCNTL: i64 = 72;

pub const SYS_FDATASYNC: i64 = 75;

pub const SYS_FGETXATTR: i64 = 193;

pub const SYS_FINIT_MODULE: i64 = 313;

pub const SYS_FLISTXATTR: i64 = 196;

pub const SYS_FLOCK: i64 = 73;

pub const SYS_FORK: i64 = 57;

pub const SYS_FREMOVEXATTR: i64 = 199;

pub const SYS_FSETXATTR: i64 = 190;

pub const SYS_FSTAT: i64 = 5;

pub const SYS_FSTATFS: i64 = 138;

pub const SYS_FSYNC: i64 = 74;

pub const SYS_FTRUNCATE: i64 = 77;

pub const SYS_FUTEX: i64 = 202;

pub const SYS_FUTIMESAT: i64 = 261;

pub const SYS_GET_ROBUST_LIST: i64 = 274;

pub const SYS_GETCPU: i64 = 309;

pub const SYS_GETCWD: i64 = 79;

pub const SYS_GETDENTS64: i64 = 217;

pub const SYS_GETEGID: i64 = 108;

pub const SYS_GETEUID: i64 = 107;

pub const SYS_GETGID: i64 = 104;

pub const SYS_GETGROUPS: i64 = 115;

pub const SYS_GETITIMER: i64 = 36;

pub const SYS_GETPEERNAME: i64 = 52;

pub const SYS_GETPGID: i64 = 121;

pub const SYS_GETPGRP: i64 = 111;

pub const SYS_GETPID: i64 = 39;

pub const SYS_GETPPID: i64 = 110;

pub const SYS_GETPRIORITY: i64 = 140;

pub const SYS_GETRANDOM: i64 = 318;

pub const SYS_GETRESGID: i64 = 120;

pub const SYS_GETRESUID: i64 = 118;

pub const SYS_GETRLIMIT: i64 = 97;

pub const SYS_GETRUSAGE: i64 = 98;

pub const SYS_GETSID: i64 = 124;

pub const SYS_GETSOCKNAME: i64 = 51;

pub const SYS_GETSOCKOPT: i64 = 55;

pub const SYS_GETTID: i64 = 186;

pub const SYS_GETTIMEOFDAY: i64 = 96;

pub const SYS_GETUID: i64 = 102;

pub const SYS_GETXATTR: i64 = 191;

pub const SYS_INIT_MODULE: i64 = 175;

pub const SYS_INOTIFY_ADD_WATCH: i64 = 254;

pub const SYS_INOTIFY_INIT: i64 = 253;

pub const SYS_INOTIFY_INIT1: i64 = 294;

pub const SYS_INOTIFY_RM_WATCH: i64 = 255;

pub const SYS_IO_CANCEL: i64 = 210;

pub const SYS_IO_DESTROY: i64 = 207;

pub const SYS_IO_GETEVENTS: i64 = 208;

pub const SYS_IO_SETUP: i64 = 206;

pub const SYS_IO_SUBMIT: i64 = 209;

pub const SYS_IOCTL: i64 = 16;

pub const SYS_IOPERM: i64 = 173;

pub const SYS_IOPL: i64 = 172;

pub const SYS_IOPRIO_GET: i64 = 252;

pub const SYS_IOPRIO_SET: i64 = 251;

pub const SYS_KCMP: i64 = 312;

pub const SYS_KILL: i64 = 62;

pub const SYS_LANDLOCK_ADD_RULE: i64 = 445;

pub const SYS_LANDLOCK_CREATE_RULESET: i64 = 444;

pub const SYS_LANDLOCK_RESTRICT_SELF: i64 = 446;

pub const SYS_LCHOWN: i64 = 94;

pub const SYS_LGETXATTR: i64 = 192;

pub const SYS_LINK: i64 = 86;

pub const SYS_LINKAT: i64 = 265;

pub const SYS_LISTEN: i64 = 50;

pub const SYS_LISTXATTR: i64 = 194;

pub const SYS_LLISTXATTR: i64 = 195;

pub const SYS_LOOKUP_DCOOKIE: i64 = 212;

pub const SYS_LREMOVEXATTR: i64 = 198;

pub const SYS_LSEEK: i64 = 8;

pub const SYS_LSETXATTR: i64 = 189;

pub const SYS_LSTAT: i64 = 6;

pub const SYS_MADVISE: i64 = 28;

pub const SYS_MEMBARRIER: i64 = 324;

pub const SYS_MEMFD_CREATE: i64 = 319;

pub const SYS_MEMFD_SECRET: i64 = 447;

pub const SYS_MINCORE: i64 = 27;

pub const SYS_MKDIR: i64 = 83;

pub const SYS_MKDIRAT: i64 = 258;

pub const SYS_MKNOD: i64 = 133;

pub const SYS_MKNODAT: i64 = 259;

pub const SYS_MLOCK: i64 = 149;

pub const SYS_MLOCK2: i64 = 325;

pub const SYS_MLOCKALL: i64 = 151;

pub const SYS_MMAP: i64 = 9;

pub const SYS_MODIFY_LDT: i64 = 154;

pub const SYS_MOUNT: i64 = 165;

pub const SYS_MOVE_MOUNT: i64 = 429;

pub const SYS_MPROTECT: i64 = 10;

pub const SYS_MQ_GETSETATTR: i64 = 245;

pub const SYS_MQ_NOTIFY: i64 = 244;

pub const SYS_MQ_OPEN: i64 = 240;

pub const SYS_MQ_TIMEDRECEIVE: i64 = 243;

pub const SYS_MQ_TIMEDSEND: i64 = 242;

pub const SYS_MQ_UNLINK: i64 = 241;

pub const SYS_MREMAP: i64 = 25;

pub const SYS_MSGCTL: i64 = 71;

pub const SYS_MSGGET: i64 = 68;

pub const SYS_MSGRCV: i64 = 70;

pub const SYS_MSGSND: i64 = 69;

pub const SYS_MSYNC: i64 = 26;

pub const SYS_MUNLOCK: i64 = 150;

pub const SYS_MUNLOCKALL: i64 = 152;

pub const SYS_MUNMAP: i64 = 11;

pub const SYS_NAME_TO_HANDLE_AT: i64 = 303;

pub const SYS_NANOSLEEP: i64 = 35;

pub const SYS_NEWFSTATAT: i64 = 262;

pub const SYS_OPEN: i64 = 2;

pub const SYS_OPEN_BY_HANDLE_AT: i64 = 304;

pub const SYS_OPEN_TREE: i64 = 428;

pub const SYS_OPENAT: i64 = 257;

pub const SYS_OPENAT2: i64 = 437;

pub const SYS_PAUSE: i64 = 34;

pub const SYS_PERF_EVENT_OPEN: i64 = 298;

pub const SYS_PERSONALITY: i64 = 135;

pub const SYS_PIDFD_GETFD: i64 = 438;

pub const SYS_PIDFD_OPEN: i64 = 434;

pub const SYS_PIDFD_SEND_SIGNAL: i64 = 424;

pub const SYS_PIPE: i64 = 22;

pub const SYS_PIPE2: i64 = 293;

pub const SYS_PKEY_ALLOC: i64 = 330;

pub const SYS_PKEY_FREE: i64 = 331;

pub const SYS_PKEY_MPROTECT: i64 = 329;

pub const SYS_POLL: i64 = 7;

pub const SYS_PPOLL: i64 = 271;

pub const SYS_PRCTL: i64 = 157;

pub const SYS_PREAD64: i64 = 17;

pub const SYS_PREADV: i64 = 295;

pub const SYS_PREADV2: i64 = 327;

pub const SYS_PRLIMIT64: i64 = 302;

pub const SYS_PROCESS_MRELEASE: i64 = 448;

pub const SYS_PROCESS_VM_READV: i64 = 310;

pub const SYS_PROCESS_VM_WRITEV: i64 = 311;

pub const SYS_PSELECT6: i64 = 270;

pub const SYS_PTRACE: i64 = 101;

pub const SYS_PWRITE64: i64 = 18;

pub const SYS_PWRITEV: i64 = 296;

pub const SYS_PWRITEV2: i64 = 328;

pub const SYS_QUOTACTL: i64 = 179;

pub const SYS_READ: i64 = 0;

pub const SYS_READAHEAD: i64 = 187;

pub const SYS_READLINK: i64 = 89;

pub const SYS_READLINKAT: i64 = 267;

pub const SYS_READV: i64 = 19;

pub const SYS_REBOOT: i64 = 169;

pub const SYS_RECVFROM: i64 = 45;

pub const SYS_RECVMMSG: i64 = 299;

pub const SYS_RECVMSG: i64 = 47;

pub const SYS_REMAP_FILE_PAGES: i64 = 216;

pub const SYS_REMOVEXATTR: i64 = 197;

pub const SYS_RENAME: i64 = 82;

pub const SYS_RENAMEAT: i64 = 264;

pub const SYS_RENAMEAT2: i64 = 316;

pub const SYS_RESTART_SYSCALL: i64 = 219;

pub const SYS_RMDIR: i64 = 84;

pub const SYS_RSEQ: i64 = 334;

pub const SYS_RT_SIGACTION: i64 = 13;

pub const SYS_RT_SIGPENDING: i64 = 127;

pub const SYS_RT_SIGPROCMASK: i64 = 14;

pub const SYS_RT_SIGQUEUEINFO: i64 = 129;

pub const SYS_RT_SIGRETURN: i64 = 15;

pub const SYS_RT_SIGSUSPEND: i64 = 130;

pub const SYS_RT_SIGTIMEDWAIT: i64 = 128;

pub const SYS_RT_TGSIGQUEUEINFO: i64 = 297;

pub const SYS_SCHED_GET_PRIORITY_MAX: i64 = 146;

pub const SYS_SCHED_GET_PRIORITY_MIN: i64 = 147;

pub const SYS_SCHED_GETAFFINITY: i64 = 204;

pub const SYS_SCHED_GETATTR: i64 = 315;

pub const SYS_SCHED_GETPARAM: i64 = 143;

pub const SYS_SCHED_GETSCHEDULER: i64 = 145;

pub const SYS_SCHED_RR_GET_INTERVAL: i64 = 148;

pub const SYS_SCHED_SETAFFINITY: i64 = 203;

pub const SYS_SCHED_SETATTR: i64 = 314;

pub const SYS_SCHED_SETPARAM: i64 = 142;

pub const SYS_SCHED_SETSCHEDULER: i64 = 144;

pub const SYS_SCHED_YIELD: i64 = 24;

pub const SYS_SECCOMP: i64 = 317;

pub const SYS_SELECT: i64 = 23;

pub const SYS_SEMCTL: i64 = 66;

pub const SYS_SEMGET: i64 = 64;

pub const SYS_SEMOP: i64 = 65;

pub const SYS_SEMTIMEDOP: i64 = 220;

pub const SYS_SENDFILE: i64 = 40;

pub const SYS_SENDMMSG: i64 = 307;

pub const SYS_SENDMSG: i64 = 46;

pub const SYS_SENDTO: i64 = 44;

pub const SYS_SET_ROBUST_LIST: i64 = 273;

pub const SYS_SET_TID_ADDRESS: i64 = 218;

pub const SYS_SETDOMAINNAME: i64 = 171;

pub const SYS_SETFSGID: i64 = 123;

pub const SYS_SETFSUID: i64 = 122;

pub const SYS_SETGID: i64 = 106;

pub const SYS_SETGROUPS: i64 = 116;

pub const SYS_SETHOSTNAME: i64 = 170;

pub const SYS_SETITIMER: i64 = 38;

pub const SYS_SETNS: i64 = 308;

pub const SYS_SETPGID: i64 = 109;

pub const SYS_SETPRIORITY: i64 = 141;

pub const SYS_SETREGID: i64 = 114;

pub const SYS_SETRESGID: i64 = 119;

pub const SYS_SETRESUID: i64 = 117;

pub const SYS_SETREUID: i64 = 113;

pub const SYS_SETRLIMIT: i64 = 160;

pub const SYS_SETSID: i64 = 112;

pub const SYS_SETSOCKOPT: i64 = 54;

pub const SYS_SETTIMEOFDAY: i64 = 164;

pub const SYS_SETUID: i64 = 105;

pub const SYS_SETXATTR: i64 = 188;

pub const SYS_SHMAT: i64 = 30;

pub const SYS_SHMCTL: i64 = 31;

pub const SYS_SHMDT: i64 = 67;

pub const SYS_SHMGET: i64 = 29;

pub const SYS_SHUTDOWN: i64 = 48;

pub const SYS_SIGALTSTACK: i64 = 131;

pub const SYS_SIGNALFD: i64 = 282;

pub const SYS_SIGNALFD4: i64 = 289;

pub const SYS_SOCKET: i64 = 41;

pub const SYS_SOCKETPAIR: i64 = 53;

pub const SYS_SPLICE: i64 = 275;

pub const SYS_STAT: i64 = 4;

pub const SYS_STATFS: i64 = 137;

pub const SYS_STATX: i64 = 332;

pub const SYS_SYMLINK: i64 = 88;

pub const SYS_SYMLINKAT: i64 = 266;

pub const SYS_SYNC: i64 = 162;

pub const SYS_SYNC_FILE_RANGE: i64 = 277;

pub const SYS_SYNCFS: i64 = 306;

pub const SYS_SYSINFO: i64 = 99;

pub const SYS_SYSLOG: i64 = 103;

pub const SYS_TEE: i64 = 276;

pub const SYS_TGKILL: i64 = 234;

pub const SYS_TIME: i64 = 201;

pub const SYS_TIMER_CREATE: i64 = 222;

pub const SYS_TIMER_DELETE: i64 = 226;

pub const SYS_TIMER_GETOVERRUN: i64 = 225;

pub const SYS_TIMER_GETTIME: i64 = 224;

pub const SYS_TIMER_SETTIME: i64 = 223;

pub const SYS_TIMERFD_CREATE: i64 = 283;

pub const SYS_TIMERFD_GETTIME: i64 = 287;

pub const SYS_TIMERFD_SETTIME: i64 = 286;

pub const SYS_TIMES: i64 = 100;

pub const SYS_TKILL: i64 = 200;

pub const SYS_TRUNCATE: i64 = 76;

pub const SYS_UMASK: i64 = 95;

pub const SYS_UMOUNT2: i64 = 166;

pub const SYS_UNAME: i64 = 63;

pub const SYS_UNLINK: i64 = 87;

pub const SYS_UNLINKAT: i64 = 263;

pub const SYS_UNSHARE: i64 = 272;

pub const SYS_UTIME: i64 = 132;

pub const SYS_UTIMENSAT: i64 = 280;

pub const SYS_UTIMES: i64 = 235;

pub const SYS_VFORK: i64 = 58;

pub const SYS_VHANGUP: i64 = 153;

pub const SYS_VMSPLICE: i64 = 278;

pub const SYS_WAIT4: i64 = 61;

pub const SYS_WAITID: i64 = 247;

pub const SYS_WRITE: i64 = 1;

pub const SYS_WRITEV: i64 = 20;

/// Calls that every confined process may make, whatever its capabilities:
/// ordinary operations on files, sockets, processes, signals and timers.
/// `ptrace` and its relatives are among them because the kernel's own access
/// checks are what guards them.
pub open spec fn ordinary(n: i64) -> bool {
    ||| n == SYS_ACCEPT
    ||| n == SYS_ACCEPT4
    ||| n == SYS_ACCESS
    ||| n == SYS_ADJTIMEX
    ||| n == SYS_ALARM
    ||| n == SYS_ARCH_PRCTL
    ||| n == SYS_BIND
    ||| n == SYS_BRK
    ||| n == SYS_CAPGET
    ||| n == SYS_CAPSET
    ||| n == SYS_CHDIR
    ||| n == SYS_CHMOD
    ||| n == SYS_CHOWN
    ||| n == SYS_CLOCK_ADJTIME
    ||| n == SYS_CLOCK_GETRES
    ||| n == SYS_CLOCK_GETTIME
    ||| n == SYS_CLOCK_NANOSLEEP
    ||| n == SYS_CLOSE
    ||| n == SYS_CLOSE_RANGE
    ||| n == SYS_CONNECT
    ||| n == SYS_COPY_FILE_RANGE
    ||| n == SYS_CREAT
    ||| n == SYS_DUP
    ||| n == SYS_DUP2
    ||| n == SYS_DUP3
    ||| n == SYS_EPOLL_CREATE
    ||| n == SYS_EPOLL_CREATE1
    ||| n == SYS_EPOLL_CTL
    ||| n == SYS_EPOLL_PWAIT
    ||| n == SYS_EPOLL_WAIT
    ||| n == SYS_EVENTFD
    ||| n == SYS_EVENTFD2
    ||| n == SYS_EXECVE
    ||| n == SYS_EXECVEAT
    ||| n == SYS_EXIT
    ||| n == SYS_EXIT_GROUP
    ||| n == SYS_FACCESSAT
    ||| n == SYS_FACCESSAT2
    ||| n == SYS_FADVISE64
    ||| n == SYS_FALLOCATE
    ||| n == SYS_FANOTIFY_MARK
    ||| n == SYS_FCHDIR
    ||| n == SYS_FCHMOD
    ||| n == SYS_FCHMODAT
    ||| n == SYS_FCHOWN
    ||| n == SYS_FCHOWNAT
    ||| n == SYS_FCNTL
    ||| n == SYS_FDATASYNC
    ||| n == SYS_FGETXATTR
    ||| n == SYS_FLISTXATTR
    ||| n == SYS_FLOCK
    ||| n == SYS_FORK
    ||| n == SYS_FREMOVEXATTR
    ||| n == SYS_FSETXATTR
    ||| n == SYS_FSTAT
    ||| n == SYS_FSTATFS
    ||| n == SYS_FSYNC
    ||| n == SYS_FTRUNCATE
    ||| n == SYS_FUTEX
    ||| n == SYS_FUTIMESAT
    ||| n == SYS_GET_ROBUST_LIST
    ||| n == SYS_GETCPU
    ||| n == SYS_GETCWD
    ||| n == SYS_GETDENTS64
    ||| n == SYS_GETEGID
    ||| n == SYS_GETEUID
    ||| n == SYS_GETGID
    ||| n == SYS_GETGROUPS
    ||| n == SYS_GETITIMER
    ||| n == SYS_GETPEERNAME
    ||| n == SYS_GETPGID
    ||| n == SYS_GETPGRP
    ||| n == SYS_GETPID
    ||| n == SYS_GETPPID
    ||| n == SYS_GETPRIORITY
    ||| n == SYS_GETRANDOM
    ||| n == SYS_GETRESGID
    ||| n == SYS_GETRESUID
    ||| n == SYS_GETRLIMIT
    ||| n == SYS_GETRUSAGE
    ||| n == SYS_GETSID
    ||| n == SYS_GETSOCKNAME
    ||| n == SYS_GETSOCKOPT
    ||| n == SYS_GETTID
    ||| n == SYS_GETTIMEOFDAY
    ||| n == SYS_GETUID
    ||| n == SYS_GETXATTR
    ||| n == SYS_INOTIFY_ADD_WATCH
    ||| n == SYS_INOTIFY_INIT
    ||| n == SYS_INOTIFY_INIT1
    ||| n == SYS_INOTIFY_RM_WATCH
    ||| n == SYS_IO_CANCEL
    ||| n == SYS_IO_DESTROY
    ||| n == SYS_IO_GETEVENTS
    ||| n == SYS_IO_SETUP
    ||| n == SYS_IO_SUBMIT
    ||| n == SYS_IOCTL
    ||| n == SYS_IOPRIO_GET
    ||| n == SYS_IOPRIO_SET
    ||| n == SYS_KILL
    ||| n == SYS_LANDLOCK_ADD_RULE
    ||| n == SYS_LANDLOCK_CREATE_RULESET
    ||| n == SYS_LANDLOCK_RESTRICT_SELF
    ||| n == SYS_LCHOWN
    ||| n == SYS_LGETXATTR
    ||| n == SYS_LINK
    ||| n == SYS_LINKAT
    ||| n == SYS_LISTEN
    ||| n == SYS_LISTXATTR
    ||| n == SYS_LLISTXATTR
    ||| n == SYS_LREMOVEXATTR
    ||| n == SYS_LSEEK
    ||| n == SYS_LSETXATTR
    ||| n == SYS_LSTAT
    ||| n == SYS_MADVISE
    ||| n == SYS_MEMBARRIER
    ||| n == SYS_MEMFD_CREATE
    ||| n == SYS_MEMFD_SECRET
    ||| n == SYS_MINCORE
    ||| n == SYS_MKDIR
    ||| n == SYS_MKDIRAT
    ||| n == SYS_MKNOD
    ||| n == SYS_MKNODAT
    ||| n == SYS_MLOCK
    ||| n == SYS_MLOCK2
    ||| n == SYS_MLOCKALL
    ||| n == SYS_MMAP
    ||| n == SYS_MODIFY_LDT
    ||| n == SYS_MPROTECT
    ||| n == SYS_MQ_GETSETATTR
    ||| n == SYS_MQ_NOTIFY
    ||| n == SYS_MQ_OPEN
    ||| n == SYS_MQ_TIMEDRECEIVE
    ||| n == SYS_MQ_TIMEDSEND
    ||| n == SYS_MQ_UNLINK
    ||| n == SYS_MREMAP
    ||| n == SYS_MSGCTL
    ||| n == SYS_MSGGET
    ||| n == SYS_MSGRCV
    ||| n == SYS_MSGSND
    ||| n == SYS_MSYNC
    ||| n == SYS_MUNLOCK
    ||| n == SYS_MUNLOCKALL
    ||| n == SYS_MUNMAP
    ||| n == SYS_NAME_TO_HANDLE_AT
    ||| n == SYS_NANOSLEEP
    ||| n == SYS_NEWFSTATAT
    ||| n == SYS_OPEN
    ||| n == SYS_OPENAT
    ||| n == SYS_OPENAT2
    ||| n == SYS_PAUSE
    ||| n == SYS_PIDFD_OPEN
    ||| n == SYS_PIDFD_SEND_SIGNAL
    ||| n == SYS_PIPE
    ||| n == SYS_PIPE2
    ||| n == SYS_PKEY_ALLOC
    ||| n == SYS_PKEY_FREE
    ||| n == SYS_PKEY_MPROTECT
    ||| n == SYS_POLL
    ||| n == SYS_PPOLL
    ||| n == SYS_PRCTL
    ||| n == SYS_PREAD64
    ||| n == SYS_PREADV
    ||| n == SYS_PREADV2
    ||| n == SYS_PRLIMIT64
    ||| n == SYS_PROCESS_MRELEASE
    ||| n == SYS_PROCESS_VM_READV
    ||| n == SYS_PROCESS_VM_WRITEV
    ||| n == SYS_PSELECT6
    ||| n == SYS_PTRACE
    ||| n == SYS_PWRITE64
    ||| n == SYS_PWRITEV
    ||| n == SYS_PWRITEV2
    ||| n == SYS_READ
    ||| n == SYS_READAHEAD
    ||| n == SYS_READLINK
    ||| n == SYS_READLINKAT
    ||| n == SYS_READV
    ||| n == SYS_RECVFROM
    ||| n == SYS_RECVMMSG
    ||| n == SYS_RECVMSG
    ||| n == SYS_REMAP_FILE_PAGES
    ||| n == SYS_REMOVEXATTR
    ||| n == SYS_RENAME
    ||| n == SYS_RENAMEAT
    ||| n == SYS_RENAMEAT2
    ||| n == SYS_RESTART_SYSCALL
    ||| n == SYS_RMDIR
    ||| n == SYS_RSEQ
    ||| n == SYS_RT_SIGACTION
    ||| n == SYS_RT_SIGPENDING
    ||| n == SYS_RT_SIGPROCMASK
    ||| n == SYS_RT_SIGQUEUEINFO
    ||| n == SYS_RT_SIGRETURN
    ||| n == SYS_RT_SIGSUSPEND
    ||| n == SYS_RT_SIGTIMEDWAIT
    ||| n == SYS_RT_TGSIGQUEUEINFO
    ||| n == SYS_SCHED_GET_PRIORITY_MAX
    ||| n == SYS_SCHED_GET_PRIORITY_MIN
    ||| n == SYS_SCHED_GETAFFINITY
    ||| n == SYS_SCHED_GETATTR
    ||| n == SYS_SCHED_GETPARAM
    ||| n == SYS_SCHED_GETSCHEDULER
    ||| n == SYS_SCHED_RR_GET_INTERVAL
    ||| n == SYS_SCHED_SETAFFINITY
    ||| n == SYS_SCHED_SETATTR
    ||| n == SYS_SCHED_SETPARAM
    ||| n == SYS_SCHED_SETSCHEDULER
    ||| n == SYS_SCHED_YIELD
    ||| n == SYS_SECCOMP
    ||| n == SYS_SELECT
    ||| n == SYS_SEMCTL
    ||| n == SYS_SEMGET
    ||| n == SYS_SEMOP
    ||| n == SYS_SEMTIMEDOP
    ||| n == SYS_SENDFILE
    ||| n == SYS_SENDMMSG
    ||| n == SYS_SENDMSG
    ||| n == SYS_SENDTO
    ||| n == SYS_SET_ROBUST_LIST
    ||| n == SYS_SET_TID_ADDRESS
    ||| n == SYS_SETFSGID
    ||| n == SYS_SETFSUID
    ||| n == SYS_SETGID
    ||| n == SYS_SETGROUPS
    ||| n == SYS_SETITIMER
    ||| n == SYS_SETPGID
    ||| n == SYS_SETPRIORITY
    ||| n == SYS_SETREGID
    ||| n == SYS_SETRESGID
    ||| n == SYS_SETRESUID
    ||| n == SYS_SETREUID
    ||| n == SYS_SETRLIMIT
    ||| n == SYS_SETSID
    ||| n == SYS_SETSOCKOPT
    ||| n == SYS_SETUID
    ||| n == SYS_SETXATTR
    ||| n == SYS_SHMAT
    ||| n == SYS_SHMCTL
    ||| n == SYS_SHMDT
    ||| n == SYS_SHMGET
    ||| n == SYS_SHUTDOWN
    ||| n == SYS_SIGALTSTACK
    ||| n == SYS_SIGNALFD
    ||| n == SYS_SIGNALFD4
    ||| n == SYS_SOCKETPAIR
    ||| n == SYS_SPLICE
    ||| n == SYS_STAT
    ||| n == SYS_STATFS
    ||| n == SYS_STATX
    ||| n == SYS_SYMLINK
    ||| n == SYS_SYMLINKAT
    ||| n == SYS_SYNC
    ||| n == SYS_SYNC_FILE_RANGE
    ||| n == SYS_SYNCFS
    ||| n == SYS_SYSINFO
    ||| n == SYS_TEE
    ||| n == SYS_TGKILL
    ||| n == SYS_TIME
    ||| n == SYS_TIMER_CREATE
    ||| n == SYS_TIMER_DELETE
    ||| n == SYS_TIMER_GETOVERRUN
    ||| n == SYS_TIMER_GETTIME
    ||| n == SYS_TIMER_SETTIME
    ||| n == SYS_TIMERFD_CREATE
    ||| n == SYS_TIMERFD_GETTIME
    ||| n == SYS_TIMERFD_SETTIME
    ||| n == SYS_TIMES
    ||| n == SYS_TKILL
    ||| n == SYS_TRUNCATE
    ||| n == SYS_UMASK
    ||| n == SYS_UNAME
    ||| n == SYS_UNLINK
    ||| n == SYS_UNLINKAT
    ||| n == SYS_UTIME
    ||| n == SYS_UTIMENSAT
    ||| n == SYS_UTIMES
    ||| n == SYS_VFORK
    ||| n == SYS_VMSPLICE
    ||| n == SYS_WAIT4
    ||| n == SYS_WAITID
    ||| n == SYS_WRITE
    ||| n == SYS_WRITEV
}

/// Whether every confined process may make call `n`.
pub fn is_ordinary(n: i64) -> (r: bool)
    ensures
        r == ordinary(n),
{
    n == SYS_ACCEPT
        || n == SYS_ACCEPT4
        || n == SYS_ACCESS
        || n == SYS_ADJTIMEX
        || n == SYS_ALARM
        || n == SYS_ARCH_PRCTL
        || n == SYS_BIND
        || n == SYS_BRK
        || n == SYS_CAPGET
        || n == SYS_CAPSET
        || n == SYS_CHDIR
        || n == SYS_CHMOD
        || n == SYS_CHOWN
        || n == SYS_CLOCK_ADJTIME
        || n == SYS_CLOCK_GETRES
        || n == SYS_CLOCK_GETTIME
        || n == SYS_CLOCK_NANOSLEEP
        || n == SYS_CLOSE
        || n == SYS_CLOSE_RANGE
        || n == SYS_CONNECT
        || n == SYS_COPY_FILE_RANGE
        || n == SYS_CREAT
        || n == SYS_DUP
        || n == SYS_DUP2
        || n == SYS_DUP3
        || n == SYS_EPOLL_CREATE
        || n == SYS_EPOLL_CREATE1
        || n == SYS_EPOLL_CTL
        || n == SYS_EPOLL_PWAIT
        || n == SYS_EPOLL_WAIT
        || n == SYS_EVENTFD
        || n == SYS_EVENTFD2
        || n == SYS_EXECVE
        || n == SYS_EXECVEAT
        || n == SYS_EXIT
        || n == SYS_EXIT_GROUP
        || n == SYS_FACCESSAT
        || n == SYS_FACCESSAT2
        || n == SYS_FADVISE64
        || n == SYS_FALLOCATE
        || n == SYS_FANOTIFY_MARK
        || n == SYS_FCHDIR
        || n == SYS_FCHMOD
        || n == SYS_FCHMODAT
        || n == SYS_FCHOWN
        || n == SYS_FCHOWNAT
        || n == SYS_FCNTL
        || n == SYS_FDATASYNC
        || n == SYS_FGETXATTR
        || n == SYS_FLISTXATTR
        || n == SYS_FLOCK
        || n == SYS_FORK
        || n == SYS_FREMOVEXATTR
        || n == SYS_FSETXATTR
        || n == SYS_FSTAT
        || n == SYS_FSTATFS
        || n == SYS_FSYNC
        || n == SYS_FTRUNCATE
        || n == SYS_FUTEX
        || n == SYS_FUTIMESAT
        || n == SYS_GET_ROBUST_LIST
        || n == SYS_GETCPU
        || n == SYS_GETCWD
        || n == SYS_GETDENTS64
        || n == SYS_GETEGID
        || n == SYS_GETEUID
        || n == SYS_GETGID
        || n == SYS_GETGROUPS
        || n == SYS_GETITIMER
        || n == SYS_GETPEERNAME
        || n == SYS_GETPGID
        || n == SYS_GETPGRP
        || n == SYS_GETPID
        || n == SYS_GETPPID
        || n == SYS_GETPRIORITY
        || n == SYS_GETRANDOM
        || n == SYS_GETRESGID
        || n == SYS_GETRESUID
        || n == SYS_GETRLIMIT
        || n == SYS_GETRUSAGE
        || n == SYS_GETSID
        || n == SYS_GETSOCKNAME
        || n == SYS_GETSOCKOPT
        || n == SYS_GETTID
        || n == SYS_GETTIMEOFDAY
        || n == SYS_GETUID
        || n == SYS_GETXATTR
        || n == SYS_INOTIFY_ADD_WATCH
        || n == SYS_INOTIFY_INIT
        || n == SYS_INOTIFY_INIT1
        || n == SYS_INOTIFY_RM_WATCH
        || n == SYS_IO_CANCEL
        || n == SYS_IO_DESTROY
        || n == SYS_IO_GETEVENTS
        || n == SYS_IO_SETUP
        || n == SYS_IO_SUBMIT
        || n == SYS_IOCTL
        || n == SYS_IOPRIO_GET
        || n == SYS_IOPRIO_SET
        || n == SYS_KILL
        || n == SYS_LANDLOCK_ADD_RULE
        || n == SYS_LANDLOCK_CREATE_RULESET
        || n == SYS_LANDLOCK_RESTRICT_SELF
        || n == SYS_LCHOWN
        || n == SYS_LGETXATTR
        || n == SYS_LINK
        || n == SYS_LINKAT
        || n == SYS_LISTEN
        || n == SYS_LISTXATTR
        || n == SYS_LLISTXATTR
        || n == SYS_LREMOVEXATTR
        || n == SYS_LSEEK
        || n == SYS_LSETXATTR
        || n == SYS_LSTAT
        || n == SYS_MADVISE
        || n == SYS_MEMBARRIER
        || n == SYS_MEMFD_CREATE
        || n == SYS_MEMFD_SECRET
        || n == SYS_MINCORE
        || n == SYS_MKDIR
        || n == SYS_MKDIRAT
        || n == SYS_MKNOD
        || n == SYS_MKNODAT
        || n == SYS_MLOCK
        || n == SYS_MLOCK2
        || n == SYS_MLOCKALL
        || n == SYS_MMAP
        || n == SYS_MODIFY_LDT
        || n == SYS_MPROTECT
        || n == SYS_MQ_GETSETATTR
        || n == SYS_MQ_NOTIFY
        || n == SYS_MQ_OPEN
        || n == SYS_MQ_TIMEDRECEIVE
        || n == SYS_MQ_TIMEDSEND
        || n == SYS_MQ_UNLINK
        || n == SYS_MREMAP
        || n == SYS_MSGCTL
        || n == SYS_MSGGET
        || n == SYS_MSGRCV
        || n == SYS_MSGSND
        || n == SYS_MSYNC
        || n == SYS_MUNLOCK
        || n == SYS_MUNLOCKALL
        || n == SYS_MUNMAP
        || n == SYS_NAME_TO_HANDLE_AT
        || n == SYS_NANOSLEEP
        || n == SYS_NEWFSTATAT
        || n == SYS_OPEN
        || n == SYS_OPENAT
        || n == SYS_OPENAT2
        || n == SYS_PAUSE
        || n == SYS_PIDFD_OPEN
        || n == SYS_PIDFD_SEND_SIGNAL
        || n == SYS_PIPE
        || n == SYS_PIPE2
        || n == SYS_PKEY_ALLOC
        || n == SYS_PKEY_FREE
        || n == SYS_PKEY_MPROTECT
        || n == SYS_POLL
        || n == SYS_PPOLL
        || n == SYS_PRCTL
        || n == SYS_PREAD64
        || n == SYS_PREADV
        || n == SYS_PREADV2
        || n == SYS_PRLIMIT64
        || n == SYS_PROCESS_MRELEASE
        || n == SYS_PROCESS_VM_READV
        || n == SYS_PROCESS_VM_WRITEV
        || n == SYS_PSELECT6
        || n == SYS_PTRACE
        || n == SYS_PWRITE64
        || n == SYS_PWRITEV
        || n == SYS_PWRITEV2
        || n == SYS_READ
        || n == SYS_READAHEAD
        || n == SYS_READLINK
        || n == SYS_READLINKAT
        || n == SYS_READV
        || n == SYS_RECVFROM
        || n == SYS_RECVMMSG
        || n == SYS_RECVMSG
        || n == SYS_REMAP_FILE_PAGES
        || n == SYS_REMOVEXATTR
        || n == SYS_RENAME
        || n == SYS_RENAMEAT
        || n == SYS_RENAMEAT2
        || n == SYS_RESTART_SYSCALL
        || n == SYS_RMDIR
        || n == SYS_RSEQ
        || n == SYS_RT_SIGACTION
        || n == SYS_RT_SIGPENDING
        || n == SYS_RT_SIGPROCMASK
        || n == SYS_RT_SIGQUEUEINFO
        || n == SYS_RT_SIGRETURN
        || n == SYS_RT_SIGSUSPEND
        || n == SYS_RT_SIGTIMEDWAIT
        || n == SYS_RT_TGSIGQUEUEINFO
        || n == SYS_SCHED_GET_PRIORITY_MAX
        || n == SYS_SCHED_GET_PRIORITY_MIN
        || n == SYS_SCHED_GETAFFINITY
        || n == SYS_SCHED_GETATTR
        || n == SYS_SCHED_GETPARAM
        || n == SYS_SCHED_GETSCHEDULER
        || n == SYS_SCHED_RR_GET_INTERVAL
        || n == SYS_SCHED_SETAFFINITY
        || n == SYS_SCHED_SETATTR
        || n == SYS_SCHED_SETPARAM
        || n == SYS_SCHED_SETSCHEDULER
        || n == SYS_SCHED_YIELD
        || n == SYS_SECCOMP
        || n == SYS_SELECT
        || n == SYS_SEMCTL
        || n == SYS_SEMGET
        || n == SYS_SEMOP
        || n == SYS_SEMTIMEDOP
        || n == SYS_SENDFILE
        || n == SYS_SENDMMSG
        || n == SYS_SENDMSG
        || n == SYS_SENDTO
        || n == SYS_SET_ROBUST_LIST
        || n == SYS_SET_TID_ADDRESS
        || n == SYS_SETFSGID
        || n == SYS_SETFSUID
        || n == SYS_SETGID
        || n == SYS_SETGROUPS
        || n == SYS_SETITIMER
        || n == SYS_SETPGID
        || n == SYS_SETPRIORITY
        || n == SYS_SETREGID
        || n == SYS_SETRESGID
        || n == SYS_SETRESUID
        || n == SYS_SETREUID
        || n == SYS_SETRLIMIT
        || n == SYS_SETSID
        || n == SYS_SETSOCKOPT
        || n == SYS_SETUID
        || n == SYS_SETXATTR
        || n == SYS_SHMAT
        || n == SYS_SHMCTL
        || n == SYS_SHMDT
        || n == SYS_SHMGET
        || n == SYS_SHUTDOWN
        || n == SYS_SIGALTSTACK
        || n == SYS_SIGNALFD
        || n == SYS_SIGNALFD4
        || n == SYS_SOCKETPAIR
        || n == SYS_SPLICE
        || n == SYS_STAT
        || n == SYS_STATFS
        || n == SYS_STATX
        || n == SYS_SYMLINK
        || n == SYS_SYMLINKAT
        || n == SYS_SYNC
        || n == SYS_SYNC_FILE_RANGE
        || n == SYS_SYNCFS
        || n == SYS_SYSINFO
        || n == SYS_TEE
        || n == SYS_TGKILL
        || n == SYS_TIME
        || n == SYS_TIMER_CREATE
        || n == SYS_TIMER_DELETE
        || n == SYS_TIMER_GETOVERRUN
        || n == SYS_TIMER_GETTIME
        || n == SYS_TIMER_SETTIME
        || n == SYS_TIMERFD_CREATE
        || n == SYS_TIMERFD_GETTIME
        || n == SYS_TIMERFD_SETTIME
        || n == SYS_TIMES
        || n == SYS_TKILL
        || n == SYS_TRUNCATE
        || n == SYS_UMASK
        || n == SYS_UNAME
        || n == SYS_UNLINK
        || n == SYS_UNLINKAT
        || n == SYS_UTIME
        || n == SYS_UTIMENSAT
        || n == SYS_UTIMES
        || n == SYS_VFORK
        || n == SYS_VMSPLICE
        || n == SYS_WAIT4
        || n == SYS_WAITID
        || n == SYS_WRITE
        || n == SYS_WRITEV
}

/// Every call that is ever allowed has a number below this.
pub const SYSCALL_LIMIT: i64 = 512;

/// Calls that every confined process may make, in the order of their numbers.
pub fn unconditionally_allowed_syscalls() -> (r: Vec<i64>)
    ensures
        forall|n: i64| #[trigger] r@.contains(n) <==> ordinary(n),
        forall|i: int, j: int| 0 <= i < j < r@.len() ==> r@[i] < r@[j],
{
    let mut out: Vec<i64> = Vec::new();
    let mut n: i64 = 0;
    while n < SYSCALL_LIMIT
        invariant
            0 <= n <= SYSCALL_LIMIT,
            forall|i: int| 0 <= i < out@.len() ==> 0 <= #[trigger] out@[i] < n && ordinary(out@[i]),
            forall|m: i64| 0 <= m < n && #[trigger] ordinary(m) ==> out@.contains(m),
            forall|i: int, j: int| 0 <= i < j < out@.len() ==> out@[i] < out@[j],
        decreases SYSCALL_LIMIT - n,
    {
        let ghost before = out@;
        if is_ordinary(n) {
            out.push(n);
            proof {
                assert(out@[before.len() as int] == n);
            }
        }
        proof {
            assert forall|m: i64| 0 <= m < n + 1 && #[trigger] ordinary(m) implies out@.contains(m) by {
                if m < n {
                    let i = choose|i: int| 0 <= i < before.len() && before[i] == m;
                    assert(out@[i] == m);
                }
            }
        }
        n += 1;
    }
    out
}

pub const CAP_CHOWN: u8 = 0;

pub const CAP_DAC_OVERRIDE: u8 = 1;

pub const CAP_FOWNER: u8 = 3;

pub const CAP_FSETID: u8 = 4;

pub const CAP_KILL: u8 = 5;

pub const CAP_SETGID: u8 = 6;

pub const CAP_SETUID: u8 = 7;

pub const CAP_SETPCAP: u8 = 8;

pub const CAP_NET_BIND_SERVICE: u8 = 10;

pub const CAP_NET_RAW: u8 = 13;

pub const CAP_SYS_CHROOT: u8 = 18;

pub const CAP_MKNOD: u8 = 27;

pub const CAP_AUDIT_WRITE: u8 = 29;

pub const CAP_SETFCAP: u8 = 31;

pub const CAP_DAC_READ_SEARCH: u8 = 2;

pub const CAP_SYS_ADMIN: u8 = 21;

pub const CAP_SYS_BOOT: u8 = 22;

pub const CAP_SYS_MODULE: u8 = 16;

pub const CAP_SYS_PACCT: u8 = 20;

pub const CAP_SYS_PTRACE: u8 = 19;

pub const CAP_SYS_RAWIO: u8 = 17;

pub const CAP_SYS_TIME: u8 = 25;

pub const CAP_SYS_TTY_CONFIG: u8 = 26;

pub const CAP_SYS_NICE: u8 = 23;

pub const CAP_SYSLOG: u8 = 34;

pub const CAP_BPF: u8 = 39;

pub const CAP_PERFMON: u8 = 38;

/// The calls that need capability `c`, on top of the ordinary ones.
pub open spec fn gated_by(c: u8) -> Seq<i64> {
    if c == CAP_DAC_READ_SEARCH {
        seq![SYS_OPEN_BY_HANDLE_AT]
    } else if c == CAP_SYS_ADMIN {
        seq![
            SYS_BPF,
            SYS_CLONE,
            SYS_CLONE3,
            SYS_FANOTIFY_INIT,
            SYS_LOOKUP_DCOOKIE,
            SYS_MOUNT,
            SYS_MOVE_MOUNT,
            SYS_OPEN_TREE,
            SYS_PERF_EVENT_OPEN,
            SYS_QUOTACTL,
            SYS_SETDOMAINNAME,
            SYS_SETHOSTNAME,
            SYS_SETNS,
            SYS_SYSLOG,
            SYS_UMOUNT2,
            SYS_UNSHARE,
        ]
    } else if c == CAP_SYS_BOOT {
        seq![SYS_REBOOT]
    } else if c == CAP_SYS_MODULE {
        seq![SYS_INIT_MODULE, SYS_FINIT_MODULE, SYS_DELETE_MODULE]
    } else if c == CAP_SYS_PACCT {
        seq![SYS_ACCT]
    } else if c == CAP_SYS_PTRACE {
        seq![SYS_KCMP, SYS_PIDFD_GETFD]
    } else if c == CAP_SYS_RAWIO {
        seq![SYS_IOPL, SYS_IOPERM]
    } else if c == CAP_SYS_TIME {
        seq![SYS_CLOCK_SETTIME, SYS_SETTIMEOFDAY]
    } else if c == CAP_SYS_TTY_CONFIG {
        seq![SYS_VHANGUP]
    } else if c == CAP_SYS_NICE {
        seq![SYS_SCHED_SETATTR]
    } else if c == CAP_SYSLOG {
        seq![SYS_SYSLOG]
    } else if c == CAP_BPF {
        seq![SYS_BPF]
    } else if c == CAP_PERFMON {
        seq![SYS_PERF_EVENT_OPEN]
    } else {
        Seq::empty()
    }
}

/// The calls that need capability `c`, on top of the ordinary ones.
pub fn conditionally_allowed_syscalls(c: u8) -> (r: Vec<i64>)
    ensures
        r@ == gated_by(c),
{
    let r: Vec<i64> = if c == CAP_DAC_READ_SEARCH {
        vec![SYS_OPEN_BY_HANDLE_AT]
    } else if c == CAP_SYS_ADMIN {
        vec![
            SYS_BPF,
            SYS_CLONE,
            SYS_CLONE3,
            SYS_FANOTIFY_INIT,
            SYS_LOOKUP_DCOOKIE,
            SYS_MOUNT,
            SYS_MOVE_MOUNT,
            SYS_OPEN_TREE,
            SYS_PERF_EVENT_OPEN,
            SYS_QUOTACTL,
            SYS_SETDOMAINNAME,
            SYS_SETHOSTNAME,
            SYS_SETNS,
            SYS_SYSLOG,
            SYS_UMOUNT2,
            SYS_UNSHARE,
        ]
    } else if c == CAP_SYS_BOOT {
        vec![SYS_REBOOT]
    } else if c == CAP_SYS_MODULE {
        vec![SYS_INIT_MODULE, SYS_FINIT_MODULE, SYS_DELETE_MODULE]
    } else if c == CAP_SYS_PACCT {
        vec![SYS_ACCT]
    } else if c == CAP_SYS_PTRACE {
        vec![SYS_KCMP, SYS_PIDFD_GETFD]
    } else if c == CAP_SYS_RAWIO {
        vec![SYS_IOPL, SYS_IOPERM]
    } else if c == CAP_SYS_TIME {
        vec![SYS_CLOCK_SETTIME, SYS_SETTIMEOFDAY]
    } else if c == CAP_SYS_TTY_CONFIG {
        vec![SYS_VHANGUP]
    } else if c == CAP_SYS_NICE {
        vec![SYS_SCHED_SETATTR]
    } else if c == CAP_SYSLOG {
        vec![SYS_SYSLOG]
    } else if c == CAP_BPF {
        vec![SYS_BPF]
    } else if c == CAP_PERFMON {
        vec![SYS_PERF_EVENT_OPEN]
    } else {
        Vec::new()
    };
    assert(r@ =~= gated_by(c));
    r
}

/// Whether the capabilities that a process holds let it make call `n`.
pub open spec fn unlocked(held: Set<u8>, n: i64) -> bool {
    exists|c: u8| held.contains(c) && #[trigger] gated_by(c).contains(n)
}

/// The calls that every process may make, by their numbers.
pub proof fn ordinary_calls_by_number(n: i64)
    ensures
        ordinary(n) <==> {
            ||| 0 <= n <= 40
            ||| 42 <= n <= 55
            ||| 57 <= n <= 77
            ||| 79 <= n <= 102
            ||| 104 <= n <= 133
            ||| 137 <= n <= 138
            ||| 140 <= n <= 152
            ||| n == 154
            ||| 157 <= n <= 160
            ||| n == 162
            ||| 186 <= n <= 204
            ||| 206 <= n <= 210
            ||| n == 213
            ||| 216 <= n <= 226
            ||| 228 <= n <= 235
            ||| 240 <= n <= 245
            ||| n == 247
            ||| 251 <= n <= 255
            ||| 257 <= n <= 271
            ||| 273 <= n <= 278
            ||| 280 <= n <= 297
            ||| n == 299
            ||| 301 <= n <= 303
            ||| 305 <= n <= 307
            ||| 309 <= n <= 311
            ||| 314 <= n <= 319
            ||| n == 322
            ||| 324 <= n <= 332
            ||| n == 334
            ||| n == 424
            ||| n == 434
            ||| 436 <= n <= 437
            ||| n == 439
            ||| 444 <= n <= 448
        },
{
}

/// The calls that a capability opens, by their numbers: each of these is opened
/// by the capability in front of it.
pub proof fn gated_calls_by_number()
    ensures
        gated_by(2).contains(304),
        gated_by(21).contains(321),
        gated_by(21).contains(56),
        gated_by(21).contains(435),
        gated_by(21).contains(300),
        gated_by(21).contains(212),
        gated_by(21).contains(165),
        gated_by(21).contains(429),
        gated_by(21).contains(428),
        gated_by(21).contains(298),
        gated_by(21).contains(179),
        gated_by(21).contains(171),
        gated_by(21).contains(170),
        gated_by(21).contains(308),
        gated_by(21).contains(103),
        gated_by(21).contains(166),
        gated_by(21).contains(272),
        gated_by(22).contains(169),
        gated_by(16).contains(175),
        gated_by(16).contains(313),
        gated_by(16).contains(176),
        gated_by(20).contains(163),
        gated_by(19).contains(312),
        gated_by(19).contains(438),
        gated_by(17).contains(172),
        gated_by(17).contains(173),
        gated_by(25).contains(227),
        gated_by(25).contains(164),
        gated_by(26).contains(153),
        gated_by(23).contains(314),
        gated_by(34).contains(103),
        gated_by(39).contains(321),
        gated_by(38).contains(298),
{
    assert(gated_by(2)[0] == 304);
    assert(gated_by(21)[0] == 321);
    assert(gated_by(21)[1] == 56);
    assert(gated_by(21)[2] == 435);
    assert(gated_by(21)[3] == 300);
    assert(gated_by(21)[4] == 212);
    assert(gated_by(21)[5] == 165);
    assert(gated_by(21)[6] == 429);
    assert(gated_by(21)[7] == 428);
    assert(gated_by(21)[8] == 298);
    assert(gated_by(21)[9] == 179);
    assert(gated_by(21)[10] == 171);
    assert(gated_by(21)[11] == 170);
    assert(gated_by(21)[12] == 308);
    assert(gated_by(21)[13] == 103);
    assert(gated_by(21)[14] == 166);
    assert(gated_by(21)[15] == 272);
    assert(gated_by(22)[0] == 169);
    assert(gated_by(16)[0] == 175);
    assert(gated_by(16)[1] == 313);
    assert(gated_by(16)[2] == 176);
    assert(gated_by(20)[0] == 163);
    assert(gated_by(19)[0] == 312);
    assert(gated_by(19)[1] == 438);
    assert(gated_by(17)[0] == 172);
    assert(gated_by(17)[1] == 173);
    assert(gated_by(25)[0] == 227);
    assert(gated_by(25)[1] == 164);
    assert(gated_by(26)[0] == 153);
    assert(gated_by(23)[0] == 314);
    assert(gated_by(34)[0] == 103);
    assert(gated_by(39)[0] == 321);
    assert(gated_by(38)[0] == 298);
}

/// No other capability opens a call.
pub proof fn other_capabilities_open_nothing(c: u8)
    requires
        c != 2,
        c != 21,
        c != 22,
        c != 16,
        c != 20,
        c != 19,
        c != 17,
        c != 25,
        c != 26,
        c != 23,
        c != 34,
        c != 39,
        c != 38,
    ensures
        gated_by(c).len() == 0,
{
}

} // verus!
