use kiln::syscalls;

#[test]
fn every_system_call_has_the_kernels_number() {
    assert_eq!(syscalls::SYS_ACCEPT, libc::SYS_accept);
    assert_eq!(syscalls::SYS_ACCEPT4, libc::SYS_accept4);
    assert_eq!(syscalls::SYS_ACCESS, libc::SYS_access);
    assert_eq!(syscalls::SYS_ACCT, libc::SYS_acct);
    assert_eq!(syscalls::SYS_ADJTIMEX, libc::SYS_adjtimex);
    assert_eq!(syscalls::SYS_ALARM, libc::SYS_alarm);
    assert_eq!(syscalls::SYS_ARCH_PRCTL, libc::SYS_arch_prctl);
    assert_eq!(syscalls::SYS_BIND, libc::SYS_bind);
    assert_eq!(syscalls::SYS_BPF, libc::SYS_bpf);
    assert_eq!(syscalls::SYS_BRK, libc::SYS_brk);
    assert_eq!(syscalls::SYS_CAPGET, libc::SYS_capget);
    assert_eq!(syscalls::SYS_CAPSET, libc::SYS_capset);
    assert_eq!(syscalls::SYS_CHDIR, libc::SYS_chdir);
    assert_eq!(syscalls::SYS_CHMOD, libc::SYS_chmod);
    assert_eq!(syscalls::SYS_CHOWN, libc::SYS_chown);
    assert_eq!(syscalls::SYS_CLOCK_ADJTIME, libc::SYS_clock_adjtime);
    assert_eq!(syscalls::SYS_CLOCK_GETRES, libc::SYS_clock_getres);
    assert_eq!(syscalls::SYS_CLOCK_GETTIME, libc::SYS_clock_gettime);
    assert_eq!(syscalls::SYS_CLOCK_NANOSLEEP, libc::SYS_clock_nanosleep);
    assert_eq!(syscalls::SYS_CLOCK_SETTIME, libc::SYS_clock_settime);
    assert_eq!(syscalls::SYS_CLONE, libc::SYS_clone);
    assert_eq!(syscalls::SYS_CLONE3, libc::SYS_clone3);
    assert_eq!(syscalls::SYS_CLOSE, libc::SYS_close);
    assert_eq!(syscalls::SYS_CLOSE_RANGE, libc::SYS_close_range);
    assert_eq!(syscalls::SYS_CONNECT, libc::SYS_connect);
    assert_eq!(syscalls::SYS_COPY_FILE_RANGE, libc::SYS_copy_file_range);
    assert_eq!(syscalls::SYS_CREAT, libc::SYS_creat);
    assert_eq!(syscalls::SYS_DELETE_MODULE, libc::SYS_delete_module);
    assert_eq!(syscalls::SYS_DUP, libc::SYS_dup);
    assert_eq!(syscalls::SYS_DUP2, libc::SYS_dup2);
    assert_eq!(syscalls::SYS_DUP3, libc::SYS_dup3);
    assert_eq!(syscalls::SYS_EPOLL_CREATE, libc::SYS_epoll_create);
    assert_eq!(syscalls::SYS_EPOLL_CREATE1, libc::SYS_epoll_create1);
    assert_eq!(syscalls::SYS_EPOLL_CTL, libc::SYS_epoll_ctl);
    assert_eq!(syscalls::SYS_EPOLL_PWAIT, libc::SYS_epoll_pwait);
    assert_eq!(syscalls::SYS_EPOLL_WAIT, libc::SYS_epoll_wait);
    assert_eq!(syscalls::SYS_EVENTFD, libc::SYS_eventfd);
    assert_eq!(syscalls::SYS_EVENTFD2, libc::SYS_eventfd2);
    assert_eq!(syscalls::SYS_EXECVE, libc::SYS_execve);
    assert_eq!(syscalls::SYS_EXECVEAT, libc::SYS_execveat);
    assert_eq!(syscalls::SYS_EXIT, libc::SYS_exit);
    assert_eq!(syscalls::SYS_EXIT_GROUP, libc::SYS_exit_group);
    assert_eq!(syscalls::SYS_FACCESSAT, libc::SYS_faccessat);
    assert_eq!(syscalls::SYS_FACCESSAT2, libc::SYS_faccessat2);
    assert_eq!(syscalls::SYS_FADVISE64, libc::SYS_fadvise64);
    assert_eq!(syscalls::SYS_FALLOCATE, libc::SYS_fallocate);
    assert_eq!(syscalls::SYS_FANOTIFY_INIT, libc::SYS_fanotify_init);
    assert_eq!(syscalls::SYS_FANOTIFY_MARK, libc::SYS_fanotify_mark);
    assert_eq!(syscalls::SYS_FCHDIR, libc::SYS_fchdir);
    assert_eq!(syscalls::SYS_FCHMOD, libc::SYS_fchmod);
    assert_eq!(syscalls::SYS_FCHMODAT, libc::SYS_fchmodat);
    assert_eq!(syscalls::SYS_FCHOWN, libc::SYS_fchown);
    assert_eq!(syscalls::SYS_FCHOWNAT, libc::SYS_fchownat);
    assert_eq!(syscalls::SYS_FCNTL, libc::SYS_fcntl);
    assert_eq!(syscalls::SYS_FDATASYNC, libc::SYS_fdatasync);
    assert_eq!(syscalls::SYS_FGETXATTR, libc::SYS_fgetxattr);
    assert_eq!(syscalls::SYS_FINIT_MODULE, libc::SYS_finit_module);
    assert_eq!(syscalls::SYS_FLISTXATTR, libc::SYS_flistxattr);
    assert_eq!(syscalls::SYS_FLOCK, libc::SYS_flock);
    assert_eq!(syscalls::SYS_FORK, libc::SYS_fork);
    assert_eq!(syscalls::SYS_FREMOVEXATTR, libc::SYS_fremovexattr);
    assert_eq!(syscalls::SYS_FSETXATTR, libc::SYS_fsetxattr);
    assert_eq!(syscalls::SYS_FSTAT, libc::SYS_fstat);
    assert_eq!(syscalls::SYS_FSTATFS, libc::SYS_fstatfs);
    assert_eq!(syscalls::SYS_FSYNC, libc::SYS_fsync);
    assert_eq!(syscalls::SYS_FTRUNCATE, libc::SYS_ftruncate);
    assert_eq!(syscalls::SYS_FUTEX, libc::SYS_futex);
    assert_eq!(syscalls::SYS_FUTIMESAT, libc::SYS_futimesat);
    assert_eq!(syscalls::SYS_GET_ROBUST_LIST, libc::SYS_get_robust_list);
    assert_eq!(syscalls::SYS_GETCPU, libc::SYS_getcpu);
    assert_eq!(syscalls::SYS_GETCWD, libc::SYS_getcwd);
    assert_eq!(syscalls::SYS_GETDENTS64, libc::SYS_getdents64);
    assert_eq!(syscalls::SYS_GETEGID, libc::SYS_getegid);
    assert_eq!(syscalls::SYS_GETEUID, libc::SYS_geteuid);
    assert_eq!(syscalls::SYS_GETGID, libc::SYS_getgid);
    assert_eq!(syscalls::SYS_GETGROUPS, libc::SYS_getgroups);
    assert_eq!(syscalls::SYS_GETITIMER, libc::SYS_getitimer);
    assert_eq!(syscalls::SYS_GETPEERNAME, libc::SYS_getpeername);
    assert_eq!(syscalls::SYS_GETPGID, libc::SYS_getpgid);
    assert_eq!(syscalls::SYS_GETPGRP, libc::SYS_getpgrp);
    assert_eq!(syscalls::SYS_GETPID, libc::SYS_getpid);
    assert_eq!(syscalls::SYS_GETPPID, libc::SYS_getppid);
    assert_eq!(syscalls::SYS_GETPRIORITY, libc::SYS_getpriority);
    assert_eq!(syscalls::SYS_GETRANDOM, libc::SYS_getrandom);
    assert_eq!(syscalls::SYS_GETRESGID, libc::SYS_getresgid);
    assert_eq!(syscalls::SYS_GETRESUID, libc::SYS_getresuid);
    assert_eq!(syscalls::SYS_GETRLIMIT, libc::SYS_getrlimit);
    assert_eq!(syscalls::SYS_GETRUSAGE, libc::SYS_getrusage);
    assert_eq!(syscalls::SYS_GETSID, libc::SYS_getsid);
    assert_eq!(syscalls::SYS_GETSOCKNAME, libc::SYS_getsockname);
    assert_eq!(syscalls::SYS_GETSOCKOPT, libc::SYS_getsockopt);
    assert_eq!(syscalls::SYS_GETTID, libc::SYS_gettid);
    assert_eq!(syscalls::SYS_GETTIMEOFDAY, libc::SYS_gettimeofday);
    assert_eq!(syscalls::SYS_GETUID, libc::SYS_getuid);
    assert_eq!(syscalls::SYS_GETXATTR, libc::SYS_getxattr);
    assert_eq!(syscalls::SYS_INIT_MODULE, libc::SYS_init_module);
    assert_eq!(syscalls::SYS_INOTIFY_ADD_WATCH, libc::SYS_inotify_add_watch);
    assert_eq!(syscalls::SYS_INOTIFY_INIT, libc::SYS_inotify_init);
    assert_eq!(syscalls::SYS_INOTIFY_INIT1, libc::SYS_inotify_init1);
    assert_eq!(syscalls::SYS_INOTIFY_RM_WATCH, libc::SYS_inotify_rm_watch);
    assert_eq!(syscalls::SYS_IO_CANCEL, libc::SYS_io_cancel);
    assert_eq!(syscalls::SYS_IO_DESTROY, libc::SYS_io_destroy);
    assert_eq!(syscalls::SYS_IO_GETEVENTS, libc::SYS_io_getevents);
    assert_eq!(syscalls::SYS_IO_SETUP, libc::SYS_io_setup);
    assert_eq!(syscalls::SYS_IO_SUBMIT, libc::SYS_io_submit);
    assert_eq!(syscalls::SYS_IOCTL, libc::SYS_ioctl);
    assert_eq!(syscalls::SYS_IOPERM, libc::SYS_ioperm);
    assert_eq!(syscalls::SYS_IOPL, libc::SYS_iopl);
    assert_eq!(syscalls::SYS_IOPRIO_GET, libc::SYS_ioprio_get);
    assert_eq!(syscalls::SYS_IOPRIO_SET, libc::SYS_ioprio_set);
    assert_eq!(syscalls::SYS_KCMP, libc::SYS_kcmp);
    assert_eq!(syscalls::SYS_KILL, libc::SYS_kill);
    assert_eq!(syscalls::SYS_LANDLOCK_ADD_RULE, libc::SYS_landlock_add_rule);
    assert_eq!(syscalls::SYS_LANDLOCK_CREATE_RULESET, libc::SYS_landlock_create_ruleset);
    assert_eq!(syscalls::SYS_LANDLOCK_RESTRICT_SELF, libc::SYS_landlock_restrict_self);
    assert_eq!(syscalls::SYS_LCHOWN, libc::SYS_lchown);
    assert_eq!(syscalls::SYS_LGETXATTR, libc::SYS_lgetxattr);
    assert_eq!(syscalls::SYS_LINK, libc::SYS_link);
    assert_eq!(syscalls::SYS_LINKAT, libc::SYS_linkat);
    assert_eq!(syscalls::SYS_LISTEN, libc::SYS_listen);
    assert_eq!(syscalls::SYS_LISTXATTR, libc::SYS_listxattr);
    assert_eq!(syscalls::SYS_LLISTXATTR, libc::SYS_llistxattr);
    assert_eq!(syscalls::SYS_LOOKUP_DCOOKIE, libc::SYS_lookup_dcookie);
    assert_eq!(syscalls::SYS_LREMOVEXATTR, libc::SYS_lremovexattr);
    assert_eq!(syscalls::SYS_LSEEK, libc::SYS_lseek);
    assert_eq!(syscalls::SYS_LSETXATTR, libc::SYS_lsetxattr);
    assert_eq!(syscalls::SYS_LSTAT, libc::SYS_lstat);
    assert_eq!(syscalls::SYS_MADVISE, libc::SYS_madvise);
    assert_eq!(syscalls::SYS_MEMBARRIER, libc::SYS_membarrier);
    assert_eq!(syscalls::SYS_MEMFD_CREATE, libc::SYS_memfd_create);
    assert_eq!(syscalls::SYS_MEMFD_SECRET, libc::SYS_memfd_secret);
    assert_eq!(syscalls::SYS_MINCORE, libc::SYS_mincore);
    assert_eq!(syscalls::SYS_MKDIR, libc::SYS_mkdir);
    assert_eq!(syscalls::SYS_MKDIRAT, libc::SYS_mkdirat);
    assert_eq!(syscalls::SYS_MKNOD, libc::SYS_mknod);
    assert_eq!(syscalls::SYS_MKNODAT, libc::SYS_mknodat);
    assert_eq!(syscalls::SYS_MLOCK, libc::SYS_mlock);
    assert_eq!(syscalls::SYS_MLOCK2, libc::SYS_mlock2);
    assert_eq!(syscalls::SYS_MLOCKALL, libc::SYS_mlockall);
    assert_eq!(syscalls::SYS_MMAP, libc::SYS_mmap);
    assert_eq!(syscalls::SYS_MODIFY_LDT, libc::SYS_modify_ldt);
    assert_eq!(syscalls::SYS_MOUNT, libc::SYS_mount);
    assert_eq!(syscalls::SYS_MOVE_MOUNT, libc::SYS_move_mount);
    assert_eq!(syscalls::SYS_MPROTECT, libc::SYS_mprotect);
    assert_eq!(syscalls::SYS_MQ_GETSETATTR, libc::SYS_mq_getsetattr);
    assert_eq!(syscalls::SYS_MQ_NOTIFY, libc::SYS_mq_notify);
    assert_eq!(syscalls::SYS_MQ_OPEN, libc::SYS_mq_open);
    assert_eq!(syscalls::SYS_MQ_TIMEDRECEIVE, libc::SYS_mq_timedreceive);
    assert_eq!(syscalls::SYS_MQ_TIMEDSEND, libc::SYS_mq_timedsend);
    assert_eq!(syscalls::SYS_MQ_UNLINK, libc::SYS_mq_unlink);
    assert_eq!(syscalls::SYS_MREMAP, libc::SYS_mremap);
    assert_eq!(syscalls::SYS_MSGCTL, libc::SYS_msgctl);
    assert_eq!(syscalls::SYS_MSGGET, libc::SYS_msgget);
    assert_eq!(syscalls::SYS_MSGRCV, libc::SYS_msgrcv);
    assert_eq!(syscalls::SYS_MSGSND, libc::SYS_msgsnd);
    assert_eq!(syscalls::SYS_MSYNC, libc::SYS_msync);
    assert_eq!(syscalls::SYS_MUNLOCK, libc::SYS_munlock);
    assert_eq!(syscalls::SYS_MUNLOCKALL, libc::SYS_munlockall);
    assert_eq!(syscalls::SYS_MUNMAP, libc::SYS_munmap);
    assert_eq!(syscalls::SYS_NAME_TO_HANDLE_AT, libc::SYS_name_to_handle_at);
    assert_eq!(syscalls::SYS_NANOSLEEP, libc::SYS_nanosleep);
    assert_eq!(syscalls::SYS_NEWFSTATAT, libc::SYS_newfstatat);
    assert_eq!(syscalls::SYS_OPEN, libc::SYS_open);
    assert_eq!(syscalls::SYS_OPEN_BY_HANDLE_AT, libc::SYS_open_by_handle_at);
    assert_eq!(syscalls::SYS_OPEN_TREE, libc::SYS_open_tree);
    assert_eq!(syscalls::SYS_OPENAT, libc::SYS_openat);
    assert_eq!(syscalls::SYS_OPENAT2, libc::SYS_openat2);
    assert_eq!(syscalls::SYS_PAUSE, libc::SYS_pause);
    assert_eq!(syscalls::SYS_PERF_EVENT_OPEN, libc::SYS_perf_event_open);
    assert_eq!(syscalls::SYS_PERSONALITY, libc::SYS_personality);
    assert_eq!(syscalls::SYS_PIDFD_GETFD, libc::SYS_pidfd_getfd);
    assert_eq!(syscalls::SYS_PIDFD_OPEN, libc::SYS_pidfd_open);
    assert_eq!(syscalls::SYS_PIDFD_SEND_SIGNAL, libc::SYS_pidfd_send_signal);
    assert_eq!(syscalls::SYS_PIPE, libc::SYS_pipe);
    assert_eq!(syscalls::SYS_PIPE2, libc::SYS_pipe2);
    assert_eq!(syscalls::SYS_PKEY_ALLOC, libc::SYS_pkey_alloc);
    assert_eq!(syscalls::SYS_PKEY_FREE, libc::SYS_pkey_free);
    assert_eq!(syscalls::SYS_PKEY_MPROTECT, libc::SYS_pkey_mprotect);
    assert_eq!(syscalls::SYS_POLL, libc::SYS_poll);
    assert_eq!(syscalls::SYS_PPOLL, libc::SYS_ppoll);
    assert_eq!(syscalls::SYS_PRCTL, libc::SYS_prctl);
    assert_eq!(syscalls::SYS_PREAD64, libc::SYS_pread64);
    assert_eq!(syscalls::SYS_PREADV, libc::SYS_preadv);
    assert_eq!(syscalls::SYS_PREADV2, libc::SYS_preadv2);
    assert_eq!(syscalls::SYS_PRLIMIT64, libc::SYS_prlimit64);
    assert_eq!(syscalls::SYS_PROCESS_MRELEASE, libc::SYS_process_mrelease);
    assert_eq!(syscalls::SYS_PROCESS_VM_READV, libc::SYS_process_vm_readv);
    assert_eq!(syscalls::SYS_PROCESS_VM_WRITEV, libc::SYS_process_vm_writev);
    assert_eq!(syscalls::SYS_PSELECT6, libc::SYS_pselect6);
    assert_eq!(syscalls::SYS_PTRACE, libc::SYS_ptrace);
    assert_eq!(syscalls::SYS_PWRITE64, libc::SYS_pwrite64);
    assert_eq!(syscalls::SYS_PWRITEV, libc::SYS_pwritev);
    assert_eq!(syscalls::SYS_PWRITEV2, libc::SYS_pwritev2);
    assert_eq!(syscalls::SYS_QUOTACTL, libc::SYS_quotactl);
    assert_eq!(syscalls::SYS_READ, libc::SYS_read);
    assert_eq!(syscalls::SYS_READAHEAD, libc::SYS_readahead);
    assert_eq!(syscalls::SYS_READLINK, libc::SYS_readlink);
    assert_eq!(syscalls::SYS_READLINKAT, libc::SYS_readlinkat);
    assert_eq!(syscalls::SYS_READV, libc::SYS_readv);
    assert_eq!(syscalls::SYS_REBOOT, libc::SYS_reboot);
    assert_eq!(syscalls::SYS_RECVFROM, libc::SYS_recvfrom);
    assert_eq!(syscalls::SYS_RECVMMSG, libc::SYS_recvmmsg);
    assert_eq!(syscalls::SYS_RECVMSG, libc::SYS_recvmsg);
    assert_eq!(syscalls::SYS_REMAP_FILE_PAGES, libc::SYS_remap_file_pages);
    assert_eq!(syscalls::SYS_REMOVEXATTR, libc::SYS_removexattr);
    assert_eq!(syscalls::SYS_RENAME, libc::SYS_rename);
    assert_eq!(syscalls::SYS_RENAMEAT, libc::SYS_renameat);
    assert_eq!(syscalls::SYS_RENAMEAT2, libc::SYS_renameat2);
    assert_eq!(syscalls::SYS_RESTART_SYSCALL, libc::SYS_restart_syscall);
    assert_eq!(syscalls::SYS_RMDIR, libc::SYS_rmdir);
    assert_eq!(syscalls::SYS_RSEQ, libc::SYS_rseq);
    assert_eq!(syscalls::SYS_RT_SIGACTION, libc::SYS_rt_sigaction);
    assert_eq!(syscalls::SYS_RT_SIGPENDING, libc::SYS_rt_sigpending);
    assert_eq!(syscalls::SYS_RT_SIGPROCMASK, libc::SYS_rt_sigprocmask);
    assert_eq!(syscalls::SYS_RT_SIGQUEUEINFO, libc::SYS_rt_sigqueueinfo);
    assert_eq!(syscalls::SYS_RT_SIGRETURN, libc::SYS_rt_sigreturn);
    assert_eq!(syscalls::SYS_RT_SIGSUSPEND, libc::SYS_rt_sigsuspend);
    assert_eq!(syscalls::SYS_RT_SIGTIMEDWAIT, libc::SYS_rt_sigtimedwait);
    assert_eq!(syscalls::SYS_RT_TGSIGQUEUEINFO, libc::SYS_rt_tgsigqueueinfo);
    assert_eq!(syscalls::SYS_SCHED_GET_PRIORITY_MAX, libc::SYS_sched_get_priority_max);
    assert_eq!(syscalls::SYS_SCHED_GET_PRIORITY_MIN, libc::SYS_sched_get_priority_min);
    assert_eq!(syscalls::SYS_SCHED_GETAFFINITY, libc::SYS_sched_getaffinity);
    assert_eq!(syscalls::SYS_SCHED_GETATTR, libc::SYS_sched_getattr);
    assert_eq!(syscalls::SYS_SCHED_GETPARAM, libc::SYS_sched_getparam);
    assert_eq!(syscalls::SYS_SCHED_GETSCHEDULER, libc::SYS_sched_getscheduler);
    assert_eq!(syscalls::SYS_SCHED_RR_GET_INTERVAL, libc::SYS_sched_rr_get_interval);
    assert_eq!(syscalls::SYS_SCHED_SETAFFINITY, libc::SYS_sched_setaffinity);
    assert_eq!(syscalls::SYS_SCHED_SETATTR, libc::SYS_sched_setattr);
    assert_eq!(syscalls::SYS_SCHED_SETPARAM, libc::SYS_sched_setparam);
    assert_eq!(syscalls::SYS_SCHED_SETSCHEDULER, libc::SYS_sched_setscheduler);
    assert_eq!(syscalls::SYS_SCHED_YIELD, libc::SYS_sched_yield);
    assert_eq!(syscalls::SYS_SECCOMP, libc::SYS_seccomp);
    assert_eq!(syscalls::SYS_SELECT, libc::SYS_select);
    assert_eq!(syscalls::SYS_SEMCTL, libc::SYS_semctl);
    assert_eq!(syscalls::SYS_SEMGET, libc::SYS_semget);
    assert_eq!(syscalls::SYS_SEMOP, libc::SYS_semop);
    assert_eq!(syscalls::SYS_SEMTIMEDOP, libc::SYS_semtimedop);
    assert_eq!(syscalls::SYS_SENDFILE, libc::SYS_sendfile);
    assert_eq!(syscalls::SYS_SENDMMSG, libc::SYS_sendmmsg);
    assert_eq!(syscalls::SYS_SENDMSG, libc::SYS_sendmsg);
    assert_eq!(syscalls::SYS_SENDTO, libc::SYS_sendto);
    assert_eq!(syscalls::SYS_SET_ROBUST_LIST, libc::SYS_set_robust_list);
    assert_eq!(syscalls::SYS_SET_TID_ADDRESS, libc::SYS_set_tid_address);
    assert_eq!(syscalls::SYS_SETDOMAINNAME, libc::SYS_setdomainname);
    assert_eq!(syscalls::SYS_SETFSGID, libc::SYS_setfsgid);
    assert_eq!(syscalls::SYS_SETFSUID, libc::SYS_setfsuid);
    assert_eq!(syscalls::SYS_SETGID, libc::SYS_setgid);
    assert_eq!(syscalls::SYS_SETGROUPS, libc::SYS_setgroups);
    assert_eq!(syscalls::SYS_SETHOSTNAME, libc::SYS_sethostname);
    assert_eq!(syscalls::SYS_SETITIMER, libc::SYS_setitimer);
    assert_eq!(syscalls::SYS_SETNS, libc::SYS_setns);
    assert_eq!(syscalls::SYS_SETPGID, libc::SYS_setpgid);
    assert_eq!(syscalls::SYS_SETPRIORITY, libc::SYS_setpriority);
    assert_eq!(syscalls::SYS_SETREGID, libc::SYS_setregid);
    assert_eq!(syscalls::SYS_SETRESGID, libc::SYS_setresgid);
    assert_eq!(syscalls::SYS_SETRESUID, libc::SYS_setresuid);
    assert_eq!(syscalls::SYS_SETREUID, libc::SYS_setreuid);
    assert_eq!(syscalls::SYS_SETRLIMIT, libc::SYS_setrlimit);
    assert_eq!(syscalls::SYS_SETSID, libc::SYS_setsid);
    assert_eq!(syscalls::SYS_SETSOCKOPT, libc::SYS_setsockopt);
    assert_eq!(syscalls::SYS_SETTIMEOFDAY, libc::SYS_settimeofday);
    assert_eq!(syscalls::SYS_SETUID, libc::SYS_setuid);
    assert_eq!(syscalls::SYS_SETXATTR, libc::SYS_setxattr);
    assert_eq!(syscalls::SYS_SHMAT, libc::SYS_shmat);
    assert_eq!(syscalls::SYS_SHMCTL, libc::SYS_shmctl);
    assert_eq!(syscalls::SYS_SHMDT, libc::SYS_shmdt);
    assert_eq!(syscalls::SYS_SHMGET, libc::SYS_shmget);
    assert_eq!(syscalls::SYS_SHUTDOWN, libc::SYS_shutdown);
    assert_eq!(syscalls::SYS_SIGALTSTACK, libc::SYS_sigaltstack);
    assert_eq!(syscalls::SYS_SIGNALFD, libc::SYS_signalfd);
    assert_eq!(syscalls::SYS_SIGNALFD4, libc::SYS_signalfd4);
    assert_eq!(syscalls::SYS_SOCKET, libc::SYS_socket);
    assert_eq!(syscalls::SYS_SOCKETPAIR, libc::SYS_socketpair);
    assert_eq!(syscalls::SYS_SPLICE, libc::SYS_splice);
    assert_eq!(syscalls::SYS_STAT, libc::SYS_stat);
    assert_eq!(syscalls::SYS_STATFS, libc::SYS_statfs);
    assert_eq!(syscalls::SYS_STATX, libc::SYS_statx);
    assert_eq!(syscalls::SYS_SYMLINK, libc::SYS_symlink);
    assert_eq!(syscalls::SYS_SYMLINKAT, libc::SYS_symlinkat);
    assert_eq!(syscalls::SYS_SYNC, libc::SYS_sync);
    assert_eq!(syscalls::SYS_SYNC_FILE_RANGE, libc::SYS_sync_file_range);
    assert_eq!(syscalls::SYS_SYNCFS, libc::SYS_syncfs);
    assert_eq!(syscalls::SYS_SYSINFO, libc::SYS_sysinfo);
    assert_eq!(syscalls::SYS_SYSLOG, libc::SYS_syslog);
    assert_eq!(syscalls::SYS_TEE, libc::SYS_tee);
    assert_eq!(syscalls::SYS_TGKILL, libc::SYS_tgkill);
    assert_eq!(syscalls::SYS_TIME, libc::SYS_time);
    assert_eq!(syscalls::SYS_TIMER_CREATE, libc::SYS_timer_create);
    assert_eq!(syscalls::SYS_TIMER_DELETE, libc::SYS_timer_delete);
    assert_eq!(syscalls::SYS_TIMER_GETOVERRUN, libc::SYS_timer_getoverrun);
    assert_eq!(syscalls::SYS_TIMER_GETTIME, libc::SYS_timer_gettime);
    assert_eq!(syscalls::SYS_TIMER_SETTIME, libc::SYS_timer_settime);
    assert_eq!(syscalls::SYS_TIMERFD_CREATE, libc::SYS_timerfd_create);
    assert_eq!(syscalls::SYS_TIMERFD_GETTIME, libc::SYS_timerfd_gettime);
    assert_eq!(syscalls::SYS_TIMERFD_SETTIME, libc::SYS_timerfd_settime);
    assert_eq!(syscalls::SYS_TIMES, libc::SYS_times);
    assert_eq!(syscalls::SYS_TKILL, libc::SYS_tkill);
    assert_eq!(syscalls::SYS_TRUNCATE, libc::SYS_truncate);
    assert_eq!(syscalls::SYS_UMASK, libc::SYS_umask);
    assert_eq!(syscalls::SYS_UMOUNT2, libc::SYS_umount2);
    assert_eq!(syscalls::SYS_UNAME, libc::SYS_uname);
    assert_eq!(syscalls::SYS_UNLINK, libc::SYS_unlink);
    assert_eq!(syscalls::SYS_UNLINKAT, libc::SYS_unlinkat);
    assert_eq!(syscalls::SYS_UNSHARE, libc::SYS_unshare);
    assert_eq!(syscalls::SYS_UTIME, libc::SYS_utime);
    assert_eq!(syscalls::SYS_UTIMENSAT, libc::SYS_utimensat);
    assert_eq!(syscalls::SYS_UTIMES, libc::SYS_utimes);
    assert_eq!(syscalls::SYS_VFORK, libc::SYS_vfork);
    assert_eq!(syscalls::SYS_VHANGUP, libc::SYS_vhangup);
    assert_eq!(syscalls::SYS_VMSPLICE, libc::SYS_vmsplice);
    assert_eq!(syscalls::SYS_WAIT4, libc::SYS_wait4);
    assert_eq!(syscalls::SYS_WAITID, libc::SYS_waitid);
    assert_eq!(syscalls::SYS_WRITE, libc::SYS_write);
    assert_eq!(syscalls::SYS_WRITEV, libc::SYS_writev);
}

#[test]
fn every_capability_has_the_kernels_number() {
    assert_eq!(syscalls::CAP_CHOWN, caps::Capability::CAP_CHOWN.index());
    assert_eq!(syscalls::CAP_DAC_OVERRIDE, caps::Capability::CAP_DAC_OVERRIDE.index());
    assert_eq!(syscalls::CAP_FOWNER, caps::Capability::CAP_FOWNER.index());
    assert_eq!(syscalls::CAP_FSETID, caps::Capability::CAP_FSETID.index());
    assert_eq!(syscalls::CAP_KILL, caps::Capability::CAP_KILL.index());
    assert_eq!(syscalls::CAP_SETGID, caps::Capability::CAP_SETGID.index());
    assert_eq!(syscalls::CAP_SETUID, caps::Capability::CAP_SETUID.index());
    assert_eq!(syscalls::CAP_SETPCAP, caps::Capability::CAP_SETPCAP.index());
    assert_eq!(syscalls::CAP_NET_BIND_SERVICE, caps::Capability::CAP_NET_BIND_SERVICE.index());
    assert_eq!(syscalls::CAP_NET_RAW, caps::Capability::CAP_NET_RAW.index());
    assert_eq!(syscalls::CAP_SYS_CHROOT, caps::Capability::CAP_SYS_CHROOT.index());
    assert_eq!(syscalls::CAP_MKNOD, caps::Capability::CAP_MKNOD.index());
    assert_eq!(syscalls::CAP_AUDIT_WRITE, caps::Capability::CAP_AUDIT_WRITE.index());
    assert_eq!(syscalls::CAP_SETFCAP, caps::Capability::CAP_SETFCAP.index());
    assert_eq!(syscalls::CAP_DAC_READ_SEARCH, caps::Capability::CAP_DAC_READ_SEARCH.index());
    assert_eq!(syscalls::CAP_SYS_ADMIN, caps::Capability::CAP_SYS_ADMIN.index());
    assert_eq!(syscalls::CAP_SYS_BOOT, caps::Capability::CAP_SYS_BOOT.index());
    assert_eq!(syscalls::CAP_SYS_MODULE, caps::Capability::CAP_SYS_MODULE.index());
    assert_eq!(syscalls::CAP_SYS_PACCT, caps::Capability::CAP_SYS_PACCT.index());
    assert_eq!(syscalls::CAP_SYS_PTRACE, caps::Capability::CAP_SYS_PTRACE.index());
    assert_eq!(syscalls::CAP_SYS_RAWIO, caps::Capability::CAP_SYS_RAWIO.index());
    assert_eq!(syscalls::CAP_SYS_TIME, caps::Capability::CAP_SYS_TIME.index());
    assert_eq!(syscalls::CAP_SYS_TTY_CONFIG, caps::Capability::CAP_SYS_TTY_CONFIG.index());
    assert_eq!(syscalls::CAP_SYS_NICE, caps::Capability::CAP_SYS_NICE.index());
    assert_eq!(syscalls::CAP_SYSLOG, caps::Capability::CAP_SYSLOG.index());
    assert_eq!(syscalls::CAP_BPF, caps::Capability::CAP_BPF.index());
    assert_eq!(syscalls::CAP_PERFMON, caps::Capability::CAP_PERFMON.index());
}
